//! The registry of temporary files to delete later.
use vstd::prelude::*;
use crate::text::str_eq;

verus! {

/// Whether a temporary file may outlive the program.
#[derive(Debug, Clone, Copy, PartialEq, Eq, Structural)]
pub enum TempKind {
    /// Should always be deleted at the end of the program.
    NotKeepable,
    /// Usually deleted but may be kept, e.g. with --keep.
    Keepable,
}

/// The files added as temporary, each once, with their kinds.
pub struct TempFiles {
    files: Vec<(String, TempKind)>,
}

/// The files of an entry list, later entries overriding earlier ones.
pub open spec fn map_of(s: Seq<(String, TempKind)>) -> Map<Seq<char>, TempKind>
    decreases s.len(),
{
    if s.len() == 0 {
        Map::empty()
    } else {
        map_of(s.drop_last()).insert(s.last().0@, s.last().1)
    }
}

/// No file is listed twice.
pub open spec fn keys_distinct(s: Seq<(String, TempKind)>) -> bool {
    forall|i: int, j: int| 0 <= i < j < s.len() ==> (#[trigger] s[i]).0@ != (#[trigger] s[j]).0@
}

proof fn lemma_map_of_dom(s: Seq<(String, TempKind)>)
    ensures
        forall|k: Seq<char>|
            #[trigger] map_of(s).dom().contains(k) <==> exists|i: int| 0 <= i < s.len() && s[i].0@ == k,
        map_of(s).dom().finite(),
    decreases s.len(),
{
    if s.len() > 0 {
        let p = s.drop_last();
        lemma_map_of_dom(p);
        assert forall|k: Seq<char>| #[trigger] map_of(s).dom().contains(k) <==> exists|i: int|
            0 <= i < s.len() && s[i].0@ == k by {
            if map_of(s).dom().contains(k) && k != s.last().0@ {
                let i = choose|i: int| 0 <= i < p.len() && p[i].0@ == k;
                assert(s[i] == p[i]);
            }
            if exists|i: int| 0 <= i < s.len() && s[i].0@ == k {
                let i = choose|i: int| 0 <= i < s.len() && s[i].0@ == k;
                if i < p.len() {
                    assert(s[i] == p[i]);
                }
            }
        }
    }
}

proof fn lemma_map_of_value(s: Seq<(String, TempKind)>, i: int)
    requires
        keys_distinct(s),
        0 <= i < s.len(),
    ensures
        map_of(s).dom().contains(s[i].0@),
        map_of(s)[s[i].0@] == s[i].1,
    decreases s.len(),
{
    let p = s.drop_last();
    if i < s.len() - 1 {
        assert(p[i] == s[i]);
        assert(s[i].0@ != s.last().0@);
        lemma_map_of_value(p, i);
    }
}

proof fn lemma_map_of_update(s: Seq<(String, TempKind)>, i: int, e: (String, TempKind))
    requires
        keys_distinct(s),
        0 <= i < s.len(),
        s[i].0@ == e.0@,
    ensures
        map_of(s.update(i, e)) == map_of(s).insert(e.0@, e.1),
        keys_distinct(s.update(i, e)),
    decreases s.len(),
{
    let u = s.update(i, e);
    let p = s.drop_last();
    if i == s.len() - 1 {
        assert(u.drop_last() =~= p);
        assert(map_of(u) =~= map_of(s).insert(e.0@, e.1));
    } else {
        assert(u.drop_last() =~= p.update(i, e));
        assert(s[i] == p[i]);
        assert(s[i].0@ != s.last().0@);
        lemma_map_of_update(p, i, e);
        assert(map_of(u) =~= map_of(s).insert(e.0@, e.1));
    }
    assert forall|a: int, b: int| 0 <= a < b < u.len() implies (#[trigger] u[a]).0@ != (
    #[trigger] u[b]).0@ by {
        assert(s[a].0@ != s[b].0@);
    }
}

proof fn lemma_map_of_remove(s: Seq<(String, TempKind)>, i: int)
    requires
        keys_distinct(s),
        0 <= i < s.len(),
    ensures
        map_of(s.remove(i)) == map_of(s).remove(s[i].0@),
        keys_distinct(s.remove(i)),
    decreases s.len(),
{
    let r = s.remove(i);
    let p = s.drop_last();
    lemma_map_of_dom(p);
    if i == s.len() - 1 {
        assert(r =~= p);
        assert forall|j: int| 0 <= j < p.len() implies p[j].0@ != s[i].0@ by {
            assert(p[j] == s[j]);
        }
        assert(!map_of(p).dom().contains(s[i].0@));
        assert(map_of(r) =~= map_of(s).remove(s[i].0@));
    } else {
        assert(r.drop_last() =~= p.remove(i));
        assert(r.last() == s.last());
        assert(s[i] == p[i]);
        assert(s[i].0@ != s.last().0@);
        lemma_map_of_remove(p, i);
        assert(map_of(r) =~= map_of(s).remove(s[i].0@));
    }
    assert forall|a: int, b: int| 0 <= a < b < r.len() implies (#[trigger] r[a]).0@ != (
    #[trigger] r[b]).0@ by {
        let a2 = if a < i {
            a
        } else {
            a + 1
        };
        let b2 = if b < i {
            b
        } else {
            b + 1
        };
        assert(r[a] == s[a2]);
        assert(r[b] == s[b2]);
        assert(s[a2].0@ != s[b2].0@);
    }
}

impl TempFiles {
    /// The files and their kinds.
    pub closed spec fn view(&self) -> Map<Seq<char>, TempKind> {
        map_of(self.files@)
    }

    /// Every file is listed once.
    pub closed spec fn wf(&self) -> bool {
        keys_distinct(self.files@)
    }

    /// No files.
    pub fn new() -> (r: TempFiles)
        ensures
            r.wf(),
            r.view() == Map::<Seq<char>, TempKind>::empty(),
    {
        TempFiles { files: Vec::new() }
    }

    /// The index of `file`, if listed.
    fn position(&self, file: &str) -> (r: Option<usize>)
        requires
            self.wf(),
        ensures
            match r {
                Some(i) => i < self.files@.len() && self.files@[i as int].0@ == file@,
                None => !self.view().dom().contains(file@),
            },
    {
        let mut i: usize = 0;
        while i < self.files.len()
            invariant
                i <= self.files@.len(),
                forall|j: int| 0 <= j < i ==> (#[trigger] self.files@[j]).0@ != file@,
            decreases self.files@.len() - i,
        {
            if str_eq(self.files[i].0.as_str(), file) {
                return Some(i);
            }
            i = i + 1;
        }
        proof {
            lemma_map_of_dom(self.files@);
        }
        None
    }

    /// The files of one kind, in the order they were first added.
    pub fn of_kind(&self, kind: TempKind) -> (r: Vec<String>)
        requires
            self.wf(),
        ensures
            forall|k: Seq<char>|
                #[trigger] listed(r@, k) <==> (self.view().dom().contains(k) && self.view()[k]
                    == kind),
    {
        let mut r: Vec<String> = Vec::new();
        let mut i: usize = 0;
        proof {
            lemma_map_of_dom(self.files@);
        }
        while i < self.files.len()
            invariant
                self.wf(),
                i <= self.files@.len(),
                forall|k: Seq<char>| #[trigger] listed(r@, k) <==> has_kind_before(self.files@, i as int, kind, k),
            decreases self.files@.len() - i,
        {
            if self.files[i].1 == kind {
                let ghost before = r@;
                let name = self.files[i].0.clone();
                r.push(name);
                assert forall|k: Seq<char>| #[trigger] listed(r@, k) <==> has_kind_before(self.files@, i + 1, kind, k) by {
                    if listed(r@, k) {
                        let j = choose|j: int| 0 <= j < r@.len() && r@[j]@ == k;
                        if j < before.len() {
                            assert(before[j] == r@[j]);
                            assert(listed(before, k));
                        }
                    }
                    if has_kind_before(self.files@, i + 1, kind, k) {
                        let j = choose|j: int| 0 <= j < i + 1 && self.files@[j].0@ == k && self.files@[j].1 == kind;
                        if j < i {
                            assert(has_kind_before(self.files@, i as int, kind, k));
                            assert(listed(before, k));
                            let m = choose|m: int| 0 <= m < before.len() && before[m]@ == k;
                            assert(r@[m] == before[m]);
                        } else {
                            assert(r@[before.len() as int]@ == k);
                        }
                    }
                }
            } else {
                assert forall|k: Seq<char>| #[trigger] listed(r@, k) <==> has_kind_before(self.files@, i + 1, kind, k) by {
                    if has_kind_before(self.files@, i + 1, kind, k) {
                        let j = choose|j: int| 0 <= j < i + 1 && self.files@[j].0@ == k && self.files@[j].1 == kind;
                        assert(has_kind_before(self.files@, i as int, kind, k));
                    }
                }
            }
            i = i + 1;
        }
        proof {
            assert forall|k: Seq<char>|
                #[trigger] listed(r@, k) <==> (self.view().dom().contains(k) && self.view()[k] == kind) by {
                if self.view().dom().contains(k) {
                    let j = choose|j: int| 0 <= j < self.files@.len() && self.files@[j].0@ == k;
                    lemma_map_of_value(self.files@, j);
                }
                if has_kind_before(self.files@, self.files@.len() as int, kind, k) {
                    let j = choose|j: int| 0 <= j < self.files@.len() && self.files@[j].0@ == k && self.files@[j].1 == kind;
                    lemma_map_of_value(self.files@, j);
                }
            }
        }
        r
    }
}

/// Whether some string of `r` is `k`.
pub open spec fn listed(r: Seq<String>, k: Seq<char>) -> bool {
    exists|j: int| 0 <= j < r.len() && r[j]@ == k
}

/// Whether one of the first `i` entries lists `k` with `kind`.
pub open spec fn has_kind_before(s: Seq<(String, TempKind)>, i: int, kind: TempKind, k: Seq<char>) -> bool {
    exists|j: int| 0 <= j < i && s[j].0@ == k && s[j].1 == kind
}

/// Add a file as temporary so it can be deleted later; adding it again sets its kind.
pub fn add(temps: &mut TempFiles, file: String, kind: TempKind)
    requires
        old(temps).wf(),
    ensures
        final(temps).wf(),
        final(temps).view() == old(temps).view().insert(file@, kind),
{
    match temps.position(file.as_str()) {
        Some(i) => {
            proof {
                lemma_map_of_update(temps.files@, i as int, (file, kind));
            }
            temps.files.set(i, (file, kind));
        },
        None => {
            let ghost before = temps.files@;
            proof {
                lemma_map_of_dom(before);
            }
            temps.files.push((file, kind));
            proof {
                assert(temps.files@.drop_last() =~= before);
                assert forall|a: int, b: int| 0 <= a < b < temps.files@.len() implies (
                #[trigger] temps.files@[a]).0@ != (#[trigger] temps.files@[b]).0@ by {
                    if b == before.len() {
                        assert(temps.files@[a] == before[a]);
                    } else {
                        assert(temps.files@[a] == before[a]);
                        assert(temps.files@[b] == before[b]);
                    }
                }
            }
        },
    }
}

/// Remove a previously added file so that it won't be deleted later, if it
/// hasn't already; whether it was there.
pub fn unadd(temps: &mut TempFiles, file: &str) -> (r: bool)
    requires
        old(temps).wf(),
    ensures
        final(temps).wf(),
        r == old(temps).view().dom().contains(file@),
        final(temps).view() == old(temps).view().remove(file@),
{
    match temps.position(file) {
        Some(i) => {
            proof {
                lemma_map_of_remove(temps.files@, i as int);
                lemma_map_of_value(temps.files@, i as int);
            }
            temps.files.remove(i);
            true
        },
        None => {
            assert(temps.view().remove(file@) =~= temps.view());
            false
        },
    }
}

/// Removing a file right after adding it leaves the other files as they were.
pub proof fn lemma_unadd_undoes_add(files: Map<Seq<char>, TempKind>, file: Seq<char>, kind: TempKind)
    ensures
        files.insert(file, kind).dom().contains(file),
        files.insert(file, kind).remove(file) == files.remove(file),
{
    assert(files.insert(file, kind).remove(file) =~= files.remove(file));
}

} // verus!
