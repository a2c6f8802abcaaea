use wcr::config::new_config;
use wcr::config::Config;
use wcr::count::count_file;
use wcr::count::Counts;
use wcr::report::counts_line;
use wcr::report::report_all;
use wcr::report::FileInput;

fn input(name: &str, content: &[u8]) -> FileInput {
    FileInput { name: name.as_bytes().to_vec(), content: Some(content.to_vec()) }
}

fn unreadable(name: &str) -> FileInput {
    FileInput { name: name.as_bytes().to_vec(), content: None }
}

#[test]
fn hello_world_with_defaults_prints_one_row() {
    let cfg = new_config(vec!["hello.txt".to_string()], false, false, false, false).unwrap();
    let out = report_all(&cfg, &vec![input("hello.txt", b"hello world\n")]);
    assert_eq!(out, b"     1     2    12 hello.txt\n".to_vec());
}

#[test]
fn two_files_with_words_only_print_rows_and_totals() {
    let cfg = new_config(
        vec!["file1".to_string(), "file2".to_string()],
        false,
        true,
        false,
        false,
    )
    .unwrap();
    let out = report_all(&cfg, &vec![input("file1", b"a\n"), input("file2", b"b b\n")]);
    assert_eq!(out, b"     1 file1\n     2 file2\n     3 total\n".to_vec());
}

#[test]
fn totals_add_the_per_file_metrics() {
    let cfg = new_config(vec!["x".to_string(), "y".to_string()], false, false, false, false)
        .unwrap();
    let a = b"x\n".to_vec();
    let b = b"y z\n".to_vec();
    let ca = count_file(&cfg, &a);
    let cb = count_file(&cfg, &b);
    assert_eq!((ca.lines + cb.lines, ca.words + cb.words, ca.bytes + cb.bytes), (2, 3, 6));
    let out = report_all(&cfg, &vec![input("x", &a), input("y", &b)]);
    assert_eq!(
        out,
        b"     1     1     2 x\n     1     2     4 y\n     2     3     6 total\n".to_vec()
    );
}

#[test]
fn single_unreadable_input_prints_nothing() {
    let cfg = new_config(vec!["missing".to_string()], false, false, false, false).unwrap();
    let out = report_all(&cfg, &vec![unreadable("missing")]);
    assert_eq!(out, Vec::<u8>::new());
}

#[test]
fn unreadable_input_is_excluded_from_totals() {
    let cfg = new_config(
        vec!["missing".to_string(), "ok".to_string()],
        false,
        false,
        false,
        false,
    )
    .unwrap();
    let out = report_all(&cfg, &vec![unreadable("missing"), input("ok", b"one two\n")]);
    assert_eq!(out, b"     1     2     8 ok\n     1     2     8 total\n".to_vec());
}

#[test]
fn chars_field_replaces_bytes_when_requested() {
    let cfg = new_config(vec!["f".to_string()], false, false, false, true).unwrap();
    // "héllo\n" encoded in UTF-8: seven bytes, six characters
    let content = vec![0x68, 0xC3, 0xA9, 0x6C, 0x6C, 0x6F, 0x0A];
    let out = report_all(&cfg, &vec![input("f", &content)]);
    assert_eq!(out, b"     6 f\n".to_vec());
}

#[test]
fn wide_values_overflow_the_field_width() {
    let cfg = Config {
        files: vec!["f".to_string()],
        lines: true,
        words: false,
        bytes: false,
        chars: false,
    };
    let counts = Counts { lines: 1234567, words: 0, bytes: 0, chars: 0 };
    let row = counts_line(&cfg, &counts, &b"f".to_vec());
    assert_eq!(row, b"1234567 f\n".to_vec());
}

#[test]
fn fields_keep_the_fixed_metric_order() {
    let cfg = Config {
        files: vec!["f".to_string()],
        lines: true,
        words: true,
        bytes: false,
        chars: true,
    };
    let out = report_all(&cfg, &vec![input("f", b"ab cd\n")]);
    assert_eq!(out, b"     1     2     6 f\n".to_vec());
}
