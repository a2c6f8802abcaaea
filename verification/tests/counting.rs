use wcr::config::Config;
use wcr::count::count_bytes;
use wcr::count::count_chars;
use wcr::count::count_file;
use wcr::count::count_lines;
use wcr::count::count_words;
use wcr::count::read_whole_lines;

fn all_metrics() -> Config {
    Config { files: vec!["-".to_string()], lines: true, words: true, bytes: true, chars: true }
}

#[test]
fn empty_content_all_metrics_zero() {
    let content: Vec<u8> = Vec::new();
    let counts = count_file(&all_metrics(), &content);
    assert_eq!(counts.lines, 0);
    assert_eq!(counts.words, 0);
    assert_eq!(counts.bytes, 0);
    assert_eq!(counts.chars, 0);
    assert!(read_whole_lines(&content).is_empty());
}

#[test]
fn raw_lines_keep_their_terminators() {
    let content = b"a\nbb\n\nc".to_vec();
    let lines = read_whole_lines(&content);
    assert_eq!(
        lines,
        vec![b"a\n".to_vec(), b"bb\n".to_vec(), b"\n".to_vec(), b"c".to_vec()]
    );
}

#[test]
fn line_count_counts_terminators_and_final_remainder() {
    assert_eq!(count_lines(&b"a\nb\nc\n".to_vec()), 3);
    assert_eq!(count_lines(&b"a\nb\nc".to_vec()), 3);
    assert_eq!(count_lines(&b"\n".to_vec()), 1);
    assert_eq!(count_lines(&b"\n\n".to_vec()), 2);
    assert_eq!(count_lines(&b"x".to_vec()), 1);
}

#[test]
fn word_count_ignores_extra_whitespace_runs() {
    assert_eq!(count_words(&b"a b".to_vec()), 2);
    assert_eq!(count_words(&b"a   \t  b".to_vec()), 2);
    assert_eq!(count_words(&b"  a b  ".to_vec()), 2);
    assert_eq!(count_words(&b"one\ntwo three\n".to_vec()), 3);
    assert_eq!(count_words(&b" \t \n".to_vec()), 0);
}

#[test]
fn single_byte_content_has_equal_bytes_and_chars() {
    let content = b"hello world\n".to_vec();
    assert_eq!(count_bytes(&content), count_chars(&content));
    assert_eq!(count_bytes(&content), 12);
}

#[test]
fn multi_byte_characters_count_once() {
    // "héllo\n" encoded in UTF-8: seven bytes, six characters
    let content = vec![0x68, 0xC3, 0xA9, 0x6C, 0x6C, 0x6F, 0x0A];
    assert_eq!(count_bytes(&content), 7);
    assert_eq!(count_chars(&content), 6);
    assert_eq!(count_lines(&content), 1);
    assert_eq!(count_words(&content), 1);
}

#[test]
fn disabled_metrics_are_not_computed() {
    let cfg = Config {
        files: vec!["-".to_string()],
        lines: true,
        words: false,
        bytes: false,
        chars: false,
    };
    let counts = count_file(&cfg, &b"one two\n".to_vec());
    assert_eq!(counts.lines, 1);
    assert_eq!(counts.words, 0);
    assert_eq!(counts.bytes, 0);
    assert_eq!(counts.chars, 0);
}
