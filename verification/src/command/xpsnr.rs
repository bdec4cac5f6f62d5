//! The ffmpeg filter graph of an XPSNR analysis.
use vstd::prelude::*;
use crate::command::encoders::{PixelFormat, pixel_format_name};
use crate::text::push_str;

verus! {

/// The filter text `add_filter` appends, and the stream name it leaves.
pub open spec fn spec_add_filter(
    old_name: Seq<char>,
    new_name: Seq<char>,
    vfilter: Option<Seq<char>>,
    pix_fmt: Option<PixelFormat>,
) -> (Seq<char>, Seq<char>) {
    if vfilter is None && pix_fmt is None {
        (Seq::empty(), old_name)
    } else {
        let fmt = match pix_fmt {
            Some(p) => "format="@ + pixel_format_name(p),
            None => Seq::empty(),
        };
        let vf = match vfilter {
            Some(v) => if pix_fmt is Some {
                ","@ + v
            } else {
                v
            },
            None => Seq::empty(),
        };
        (old_name + fmt + vf + new_name + ";"@, new_name)
    }
}

/// The view of an optional text.
pub open spec fn opt_str(s: Option<&str>) -> Option<Seq<char>> {
    match s {
        Some(v) => Some(v@),
        None => None,
    }
}

/// The filter graph: optional filters on the reference (`[0:v]`) and the distorted
/// (`[1:v]`) streams, then `xpsnr` of both.
pub open spec fn spec_lavfi(ref_vfilter: Option<Seq<char>>, pix_fmt: Option<PixelFormat>) -> Seq<char> {
    let r = spec_add_filter("[0:v]"@, "[ref]"@, ref_vfilter, pix_fmt);
    let d = spec_add_filter("[1:v]"@, "[dis]"@, None, pix_fmt);
    r.0 + d.0 + r.1 + d.1 + "xpsnr"@
}

/// Add filter to `lavfi`, if necessary. If no filter added return `old_name`.
/// Otherwise return `new_name`.
fn add_filter(
    lavfi: &mut String,
    old_name: &'static str,
    new_name: &'static str,
    vfilter: Option<&str>,
    pix_fmt: Option<PixelFormat>,
) -> (r: &'static str)
    ensures
        final(lavfi)@ == old(lavfi)@ + spec_add_filter(old_name@, new_name@, opt_str(vfilter), pix_fmt).0,
        r@ == spec_add_filter(old_name@, new_name@, opt_str(vfilter), pix_fmt).1,
{
    if vfilter.is_none() && pix_fmt.is_none() {
        return old_name;
    }
    push_str(lavfi, old_name);
    if let Some(pix_fmt) = pix_fmt {
        push_str(lavfi, "format=");
        push_str(lavfi, pix_fmt.as_str());
    }
    if let Some(vf) = vfilter {
        if pix_fmt.is_some() {
            push_str(lavfi, ",");
        }
        push_str(lavfi, vf);
    }
    push_str(lavfi, new_name);
    push_str(lavfi, ";");
    new_name
}

/// The ffmpeg `-filter_complex` value for an XPSNR analysis.
pub fn lavfi(ref_vfilter: Option<&str>, pix_fmt: Option<PixelFormat>) -> (r: String)
    ensures
        r@ == spec_lavfi(opt_str(ref_vfilter), pix_fmt),
{
    let mut lavfi = String::new();
    let ref_stream = add_filter(&mut lavfi, "[0:v]", "[ref]", ref_vfilter, pix_fmt);
    let dis_stream = add_filter(&mut lavfi, "[1:v]", "[dis]", None, pix_fmt);
    push_str(&mut lavfi, ref_stream);
    push_str(&mut lavfi, dis_stream);
    push_str(&mut lavfi, "xpsnr");
    proof {
        assert(opt_str(None::<&str>) == None::<Seq<char>>);
    }
    lavfi
}

} // verus!
