# rsomics-epps-singleton

Epps-Singleton two-sample test (the test of `scipy.stats.epps_singleton_2samp`)
on the empirical characteristic function, as a command-line tool
`rsomics-epps-singleton X.tsv Y.tsv [--t 0.4,0.8]` that prints
`statistic<TAB>p`.

Layout:

- `src/` is the verified library (Verus). It holds the parts of the test that
  decide, split and index, each with a proved contract:
  - `tokens`: splitting an input buffer into its whitespace-delimited values;
    the result is proved to be the unique list of maximal non-whitespace runs,
    to depend only on where the whitespace lies, and to concatenate across
    whitespace.
  - `freq`: splitting the `--t` list at commas and trimming each piece, and
    recognising the default list `0.4,0.8`.
  - `es`: the order of the input checks (NaN, sample size, frequency sign,
    infinity), the sizes the computation works with, and the error messages.
  - `pairwise`: the order in which NumPy's pairwise sum reduces its terms.
  - `percentile`: the order statistics a linear-interpolation percentile reads.
  - `decimal`, `whitespace`: decimal formatting of counts and the whitespace
    classes used above.
- `app/` is the tool around it: argument handling, file reading, and all the
  floating-point work (number parsing with `fast-float2`, cosine/sine moments,
  covariance, Jacobi pseudo-inverse, chi-squared tail), which the verified
  library cannot hold.
- `tests/` exercises the library on concrete inputs.
