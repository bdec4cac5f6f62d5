# ab-av1

AV1 video encoding tool with fast VMAF sampling & automatic encoder crf
calculation, using ffmpeg. `ab-av1 crf-search` encodes short samples of the
input at a few crf values and searches for the highest crf whose samples still
reach a minimum VMAF (or XPSNR) score and stay under a maximum encoded size.

## Layout

* `src/` is the library, verified with Verus: parsing of ffmpeg's output, the
  ffmpeg arguments of each encode, decode and analysis, the sample plan, the
  predictions drawn from the sample results, the sample cache key, the crf
  search and the temporary file registry. Each public function states its
  result in its contract; laws that relate several functions are public proof
  functions named `lemma_*`.
* `app/` is the command line program around it: argument parsing, running
  ffmpeg and ffprobe, progress bars, the sample cache on disk and printing.
* `tests/` runs the library on concrete values.

Units: crf values are in thousandths, scores in millionths and percentages in
millionths of a percent; durations are whole seconds and nanoseconds.
