use rust_wc::count::count;
use rust_wc::count::count_bytes;
use rust_wc::count::count_chars;
use rust_wc::count::count_words;
use rust_wc::count::CountStat;
use rust_wc::count::Options;
use rust_wc::error::Error;
use rust_wc::report::effective_sources;
use rust_wc::report::Report;
use rust_wc::report::Reports;
use rust_wc::wc::wc;
use rust_wc::wc::WcCount;

// An unselected metric reports zero whatever the content says.
#[test]
fn test_unselected_metrics_are_zero() {
    let options = Options { bytes: false, chars: false, words: true, lines: false };
    let stat = count("one two\nthree\n", &options);
    assert_eq!(stat.words, 3);
    assert_eq!(stat.lines, 0);
    assert_eq!(stat.chars, 0);
    assert_eq!(stat.bytes, 0);

    let options = Options { bytes: true, chars: true, words: false, lines: true };
    let stat = count("one two\nthree\n", &options);
    assert_eq!(stat.words, 0);
    assert_eq!(stat.lines, 2);
    assert_eq!(stat.chars, 14);
    assert_eq!(stat.bytes, 14);
}

// Words are the maximal whitespace-delimited non-empty tokens.
#[test]
fn test_word_tokens() {
    assert_eq!(count_words("  a  bb   ccc "), 3);
    assert_eq!(count_words(""), 0);
    assert_eq!(count_words("   \t\n "), 0);
    assert_eq!(count_words("one"), 1);
    assert_eq!(count_words("one\u{00a0}two"), 2);
}

// Characters are code points: a multi-byte character makes chars < bytes.
#[test]
fn test_multibyte_chars_fewer_than_bytes() {
    assert_eq!(count_chars("\u{00e9}"), 1);
    assert_eq!(count_bytes("\u{00e9}"), 2);
    let text = "caf\u{00e9} \u{2014} bar";
    assert!(count_chars(text) < count_bytes(text));
    assert_eq!(count_chars("plain"), count_bytes("plain"));
}

// Field-wise addition commutes, associates, and has the empty count as
// its identity.
#[test]
fn test_add_laws_on_values() {
    let a = CountStat { lines: 1, words: 2, chars: 3, bytes: 4 };
    let b = CountStat { lines: 10, words: 20, chars: 30, bytes: 40 };
    let c = CountStat { lines: 7, words: 0, chars: 5, bytes: 1 };
    assert_eq!(a.add(&b), b.add(&a));
    assert_eq!(a.add(&CountStat::empty()), a);
    assert_eq!(a.add(&b).add(&c), a.add(&b.add(&c)));

    let wa = WcCount { lines: 1, words: 2, chars: 3, bytes: 4 };
    let wb = WcCount { lines: 5, words: 6, chars: 7, bytes: 8 };
    assert_eq!(wa.add(&wb), wb.add(&wa));
    assert_eq!(wa.add(&WcCount::empty()), wa);
}

// A single source gets no total row; two sources get exactly one, holding
// the field-wise sum of the successful results.
#[test]
fn test_total_row_iff_multiple_sources() {
    let mut reports = Reports {
        data: vec![Report {
            name: "only".to_string(),
            result: Ok(CountStat { lines: 1, words: 2, chars: 3, bytes: 4 }),
        }],
    };
    assert!(reports.append_total());
    assert_eq!(reports.len(), 1);

    let mut reports = Reports {
        data: vec![
            Report {
                name: "a".to_string(),
                result: Ok(CountStat { lines: 1, words: 2, chars: 3, bytes: 4 }),
            },
            Report {
                name: "b".to_string(),
                result: Ok(CountStat { lines: 10, words: 20, chars: 30, bytes: 40 }),
            },
        ],
    };
    assert!(reports.append_total());
    assert_eq!(reports.len(), 3);
    let rows = reports.iter();
    assert_eq!(rows[2].name, "total");
    match &rows[2].result {
        Ok(total) => {
            assert_eq!(*total, CountStat { lines: 11, words: 22, chars: 33, bytes: 44 });
        },
        Err(_) => panic!("the total row must hold counts"),
    }
}

// A failed source is excluded from the total and flips the error signal,
// but does not stop the others from being reported.
#[test]
fn test_partial_failure_aggregation() {
    let good = CountStat { lines: 3, words: 58, chars: 0, bytes: 357 };
    let mut reports = Reports {
        data: vec![
            Report { name: "a.txt".to_string(), result: Ok(good) },
            Report {
                name: "missing.txt".to_string(),
                result: Err(Error::Open {
                    path: "missing.txt".to_string(),
                    message: "No such file or directory".to_string(),
                }),
            },
        ],
    };
    assert!(reports.append_total());
    assert_eq!(reports.len(), 3);
    let rows = reports.iter();
    assert_eq!(rows[2].name, "total");
    match &rows[2].result {
        Ok(total) => assert_eq!(*total, good),
        Err(_) => panic!("the total row must hold counts"),
    }
    assert!(reports.has_error());
    let diagnostic = reports.iter()[1].render_err();
    assert_eq!(diagnostic, "missing.txt: IO Error on missing.txt: No such file or directory");
}

// A total whose field-wise sum would not fit in a machine word is refused
// and leaves the report unchanged.
#[test]
fn test_total_overflow_refused() {
    let big = CountStat { lines: 0, words: 0, chars: 0, bytes: usize::MAX };
    let mut reports = Reports {
        data: vec![
            Report { name: "a".to_string(), result: Ok(big) },
            Report { name: "b".to_string(), result: Ok(big) },
        ],
    };
    assert!(!reports.append_total());
    assert_eq!(reports.len(), 2);
}

// With no file named, the single source read is standard input, named `-`.
#[test]
fn test_stdin_is_the_default_source() {
    let sources = effective_sources(vec![]);
    assert_eq!(sources, vec!["-".to_string()]);

    let sources = effective_sources(vec!["a.txt".to_string(), "-".to_string()]);
    assert_eq!(sources, vec!["a.txt".to_string(), "-".to_string()]);
}

// No flag at all selects lines, words and bytes; any flag is kept as is.
#[test]
fn test_default_selection() {
    let options = Options::from_flags(false, false, false, false);
    assert!(options.lines && options.words && options.bytes && !options.chars);
    let options = Options::from_flags(false, true, false, false);
    assert!(!options.lines && !options.words && !options.bytes && options.chars);
}

// Each selected metric is printed right-aligned to the column width in the
// order lines, words, chars, bytes, then the name, left-aligned.
#[test]
fn test_rendered_rows() {
    let report = Report {
        name: "a.txt".to_string(),
        result: Ok(CountStat { lines: 3, words: 58, chars: 0, bytes: 357 }),
    };
    let options = Options { bytes: true, chars: false, words: true, lines: true };
    assert_eq!(report.render(3, &options), "  3  58 357 a.txt");
    assert_eq!(report.render(4, &options), "   3   58  357 a.txt");

    let report = Report {
        name: "x".to_string(),
        result: Ok(CountStat { lines: 0, words: 0, chars: 12, bytes: 0 }),
    };
    let options = Options { bytes: false, chars: true, words: false, lines: false };
    assert_eq!(report.render(3, &options), " 12 x  ");
}

// The one-shot counter fills all four fields at once.
#[test]
fn test_wc_counts_everything() {
    let c = wc("one two\nthree\n");
    assert_eq!(c.lines, 2);
    assert_eq!(c.words, 3);
    assert_eq!(c.chars, 14);
    assert_eq!(c.bytes, 14);

    let c = wc("no trailing newline");
    assert_eq!(c.lines, 1);
    let c = wc("");
    assert_eq!(c.lines, 0);
}

// Every error variant renders its own diagnostic message.
#[test]
fn test_error_messages() {
    let e = Error::Open { path: "a".to_string(), message: "denied".to_string() };
    assert_eq!(e.message(), "IO Error on a: denied");
    let e = Error::Read { path: "b".to_string(), message: "bad encoding".to_string() };
    assert_eq!(e.message(), "IO Error on b: bad encoding");
    let e = Error::Arg { message: "unknown flag".to_string() };
    assert_eq!(e.message(), "unknown flag");
}
