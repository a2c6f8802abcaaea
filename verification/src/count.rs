//! Splitting an input into raw lines and counting the four metrics.
//!
//! A file's content is a byte string. A *raw line* is a span of the content
//! up to and including its terminating newline byte, except that a final
//! unterminated remainder forms a raw line of its own. The four metrics are
//! pure functions of the content: the line count is the number of raw
//! lines; the word count is the number of maximal runs of bytes that are
//! not ASCII whitespace; the byte count is the length; and the character
//! count is the number of bytes that do not continue a multi-byte UTF-8
//! encoding, which for valid UTF-8 content is the number of Unicode scalar
//! values.

use vstd::prelude::*;

verus! {

/// The newline byte that terminates a raw line.
pub open spec fn nl() -> u8 {
    10
}

/// ASCII whitespace: space, tab, line feed, form feed, and carriage return.
pub open spec fn is_ascii_white(b: u8) -> bool {
    b == 32 || b == 9 || b == 10 || b == 12 || b == 13
}

/// A UTF-8 continuation byte: one that extends a multi-byte encoding and
/// therefore does not begin a character.
pub open spec fn is_continuation(b: u8) -> bool {
    0x80 <= b < 0xC0
}

/// Whether a raw line already carries its terminating newline.
pub open spec fn is_terminated(l: Seq<u8>) -> bool {
    l.len() > 0 && l.last() == nl()
}

/// The raw lines of a content, built byte by byte: a byte extends the last
/// line while that line is unterminated, and starts a new line otherwise.
pub open spec fn raw_lines(s: Seq<u8>) -> Seq<Seq<u8>>
    decreases s.len(),
{
    if s.len() == 0 {
        Seq::empty()
    } else {
        let prev = raw_lines(s.drop_last());
        if prev.len() > 0 && !is_terminated(prev.last()) {
            prev.update(prev.len() - 1, prev.last().push(s.last()))
        } else {
            prev.push(seq![s.last()])
        }
    }
}

/// Metric: the number of raw lines.
pub open spec fn line_count(s: Seq<u8>) -> nat {
    raw_lines(s).len()
}

/// The number of newline bytes in the content.
pub open spec fn newline_count(s: Seq<u8>) -> nat
    decreases s.len(),
{
    if s.len() == 0 {
        0
    } else {
        newline_count(s.drop_last()) + if s.last() == nl() {
            1nat
        } else {
            0nat
        }
    }
}

/// Whether position `i` begins a word: a non-whitespace byte at the start
/// of the content or right after a whitespace byte.
pub open spec fn is_word_start(s: Seq<u8>, i: int) -> bool {
    &&& 0 <= i < s.len()
    &&& !is_ascii_white(s[i])
    &&& (i == 0 || is_ascii_white(s[i - 1]))
}

/// Metric: the number of maximal runs of non-whitespace bytes, counted as
/// the number of positions that begin a word.
pub open spec fn word_count(s: Seq<u8>) -> nat
    decreases s.len(),
{
    if s.len() == 0 {
        0
    } else {
        word_count(s.drop_last()) + if is_word_start(s, s.len() - 1) {
            1nat
        } else {
            0nat
        }
    }
}

/// Metric: the number of bytes.
pub open spec fn byte_count(s: Seq<u8>) -> nat {
    s.len()
}

/// Metric: the number of bytes that begin a character. For valid UTF-8
/// content this is the number of Unicode scalar values.
pub open spec fn char_count(s: Seq<u8>) -> nat
    decreases s.len(),
{
    if s.len() == 0 {
        0
    } else {
        char_count(s.drop_last()) + if is_continuation(s.last()) {
            0nat
        } else {
            1nat
        }
    }
}

/// The deep view of a vector of byte vectors grows by the view of the
/// pushed element.
proof fn lemma_deep_view_push(before: Vec<Vec<u8>>, after: Vec<Vec<u8>>, x: Vec<u8>)
    requires
        after@ == before@.push(x),
    ensures
        after.deep_view() == before.deep_view().push(x@),
{
    assert(x.deep_view() =~= x@);
    assert(after.deep_view() =~~= before.deep_view().push(x@));
}

/// Splits a content into its raw lines, each carrying its terminating
/// newline; a final unterminated remainder becomes the last raw line.
pub fn read_whole_lines(content: &Vec<u8>) -> (lines: Vec<Vec<u8>>)
    ensures
        lines.deep_view() == raw_lines(content@),
{
    let mut lines: Vec<Vec<u8>> = Vec::new();
    let mut cur: Vec<u8> = Vec::new();
    let mut i: usize = 0;
    proof {
        assert(raw_lines(content@.take(0)) =~= lines.deep_view());
    }
    while i < content.len()
        invariant
            i <= content@.len(),
            cur@.len() > 0 ==> raw_lines(content@.take(i as int)) == lines.deep_view().push(
                cur@,
            ) && !is_terminated(cur@),
            cur@.len() == 0 ==> raw_lines(content@.take(i as int)) == lines.deep_view() && (
            lines@.len() == 0 || is_terminated(lines.deep_view().last())),
        decreases content@.len() - i,
    {
        let ghost prefix = content@.take(i as int);
        let ghost old_lines = lines.deep_view();
        let ghost old_cur = cur@;
        let b = content[i];
        cur.push(b);
        i = i + 1;
        proof {
            let stepped = content@.take(i as int);
            assert(stepped.drop_last() =~= prefix);
            assert(stepped.last() == b);
            if old_cur.len() > 0 {
                assert(raw_lines(stepped) =~= old_lines.push(old_cur.push(b)));
            } else {
                assert(old_cur.push(b) =~= seq![b]);
                assert(raw_lines(stepped) =~= old_lines.push(old_cur.push(b)));
            }
        }
        if b == 10 {
            let ghost before = lines;
            let full = cur;
            cur = Vec::new();
            lines.push(full);
            proof {
                lemma_deep_view_push(before, lines, full);
            }
        }
    }
    proof {
        assert(content@.take(content@.len() as int) =~= content@);
    }
    if cur.len() > 0 {
        let ghost before = lines;
        let ghost last = cur;
        lines.push(cur);
        proof {
            lemma_deep_view_push(before, lines, last);
        }
    }
    lines
}

/// Counts the raw lines of a content.
pub fn count_lines(content: &Vec<u8>) -> (n: usize)
    ensures
        n == line_count(content@),
{
    let lines = read_whole_lines(content);
    lines.len()
}

/// Counts the words of a content: the maximal runs of bytes that are not
/// ASCII whitespace.
pub fn count_words(content: &Vec<u8>) -> (n: usize)
    ensures
        n == word_count(content@),
{
    let mut n: usize = 0;
    let mut after_white = true;
    let mut i: usize = 0;
    proof {
        assert(content@.take(0).len() == 0);
    }
    while i < content.len()
        invariant
            i <= content@.len(),
            n == word_count(content@.take(i as int)),
            n <= i,
            after_white == (i == 0 || is_ascii_white(content@[i as int - 1])),
        decreases content@.len() - i,
    {
        let b = content[i];
        let white = b == 32 || b == 9 || b == 10 || b == 12 || b == 13;
        proof {
            let stepped = content@.take(i as int + 1);
            assert(stepped.drop_last() =~= content@.take(i as int));
            assert(stepped.last() == b);
        }
        if !white && after_white {
            n = n + 1;
        }
        after_white = white;
        i = i + 1;
    }
    proof {
        assert(content@.take(content@.len() as int) =~= content@);
    }
    n
}

/// Counts the bytes of a content.
pub fn count_bytes(content: &Vec<u8>) -> (n: usize)
    ensures
        n == byte_count(content@),
{
    content.len()
}

/// Counts the characters of a content: the bytes that begin a character,
/// which for valid UTF-8 content is the number of Unicode scalar values.
pub fn count_chars(content: &Vec<u8>) -> (n: usize)
    ensures
        n == char_count(content@),
{
    let mut n: usize = 0;
    let mut i: usize = 0;
    proof {
        assert(content@.take(0).len() == 0);
    }
    while i < content.len()
        invariant
            i <= content@.len(),
            n == char_count(content@.take(i as int)),
            n <= i,
        decreases content@.len() - i,
    {
        let b = content[i];
        proof {
            let stepped = content@.take(i as int + 1);
            assert(stepped.drop_last() =~= content@.take(i as int));
            assert(stepped.last() == b);
        }
        if b < 0x80 || b >= 0xC0 {
            n = n + 1;
        }
        i = i + 1;
    }
    proof {
        assert(content@.take(content@.len() as int) =~= content@);
    }
    n
}

/// Law: empty content has all four metrics at zero.
pub proof fn lemma_empty_metrics(s: Seq<u8>)
    requires
        s.len() == 0,
    ensures
        line_count(s) == 0,
        word_count(s) == 0,
        byte_count(s) == 0,
        char_count(s) == 0,
{
}

/// Law: when every byte encodes a character on its own (no byte reaches
/// 0x80), the character count equals the byte count.
pub proof fn lemma_single_byte_chars(s: Seq<u8>)
    requires
        forall|i: int| 0 <= i < s.len() ==> s[i] < 0x80,
    ensures
        char_count(s) == byte_count(s),
    decreases s.len(),
{
    if s.len() > 0 {
        assert(forall|i: int| 0 <= i < s.drop_last().len() ==> s.drop_last()[i] < 0x80);
        lemma_single_byte_chars(s.drop_last());
    }
}

/// The last raw line of a non-empty content is non-empty and ends with the
/// content's last byte.
proof fn lemma_raw_lines_last(s: Seq<u8>)
    requires
        s.len() > 0,
    ensures
        raw_lines(s).len() > 0,
        raw_lines(s).last().len() > 0,
        raw_lines(s).last().last() == s.last(),
    decreases s.len(),
{
    if s.drop_last().len() > 0 {
        lemma_raw_lines_last(s.drop_last());
    }
}

/// Law: the line count is the number of newline-terminated segments, plus
/// one more if a final non-empty segment lacks its terminator.
pub proof fn lemma_line_count_newlines(s: Seq<u8>)
    ensures
        line_count(s) == newline_count(s) + if s.len() > 0 && s.last() != nl() {
            1nat
        } else {
            0nat
        },
    decreases s.len(),
{
    if s.len() > 0 {
        let sd = s.drop_last();
        lemma_line_count_newlines(sd);
        if sd.len() > 0 {
            lemma_raw_lines_last(sd);
        }
    }
}

/// Law: inserting an ASCII whitespace byte at either end of the content or
/// beside an existing whitespace byte leaves the word count unchanged; in
/// particular, runs of spaces and tabs between words may grow without
/// changing the count.
pub proof fn lemma_word_count_insert_whitespace(s: Seq<u8>, i: int, w: u8)
    requires
        is_ascii_white(w),
        0 <= i <= s.len(),
        i == 0 || i == s.len() || is_ascii_white(s[i - 1]) || is_ascii_white(s[i]),
    ensures
        word_count(s.insert(i, w)) == word_count(s),
    decreases s.len(),
{
    let t = s.insert(i, w);
    s.insert_ensures(i, w);
    if i == s.len() {
        assert(t.drop_last() =~= s);
        assert(!is_word_start(t, t.len() - 1));
    } else {
        let sd = s.drop_last();
        assert(t.drop_last() =~= sd.insert(i, w));
        sd.insert_ensures(i, w);
        lemma_word_count_insert_whitespace(sd, i, w);
        assert(t[s.len() as int] == s[s.len() - 1]);
        if i == s.len() - 1 {
            assert(t[s.len() - 1] == w);
            assert(is_word_start(t, t.len() - 1) == is_word_start(s, s.len() - 1));
        } else {
            assert(t[s.len() - 1] == s[s.len() - 2]);
            assert(is_word_start(t, t.len() - 1) == is_word_start(s, s.len() - 1));
        }
    }
}

/// The raw lines are a decomposition of the content: concatenating them
/// restores the content, so the byte and character counts are also the
/// sums of those counts over the raw lines.
pub proof fn lemma_raw_lines_flatten(s: Seq<u8>)
    ensures
        raw_lines(s).flatten() == s,
    decreases s.len(),
{
    raw_lines(s).lemma_flatten_and_flatten_alt_are_equivalent();
    if s.len() == 0 {
        assert(raw_lines(s).flatten_alt() =~= s);
    } else {
        let sd = s.drop_last();
        let prev = raw_lines(sd);
        lemma_raw_lines_flatten(sd);
        prev.lemma_flatten_and_flatten_alt_are_equivalent();
        if prev.len() > 0 && !is_terminated(prev.last()) {
            let upd = prev.update(prev.len() - 1, prev.last().push(s.last()));
            assert(upd.drop_last() =~= prev.drop_last());
            assert(upd.flatten_alt() == prev.drop_last().flatten_alt() + prev.last().push(
                s.last(),
            ));
            assert(prev.drop_last().flatten_alt() + prev.last().push(s.last()) =~= (
            prev.drop_last().flatten_alt() + prev.last()).push(s.last()));
            assert(sd.push(s.last()) =~= s);
        } else {
            let pushed = prev.push(seq![s.last()]);
            assert(pushed.drop_last() =~= prev);
            assert(prev.flatten_alt() + seq![s.last()] =~= s);
        }
    }
}

/// Each metric of a content is bounded by its length in bytes.
pub proof fn lemma_metrics_le_len(s: Seq<u8>)
    ensures
        line_count(s) <= s.len(),
        word_count(s) <= s.len(),
        char_count(s) <= s.len(),
    decreases s.len(),
{
    if s.len() > 0 {
        lemma_metrics_le_len(s.drop_last());
    }
}

/// The four metrics of one file. A disabled metric is left at zero and
/// never reported, so it contributes nothing to any total.
pub struct Counts {
    pub lines: usize,
    pub words: usize,
    pub bytes: usize,
    pub chars: usize,
}

/// Computes the metrics that the configuration enables for one file's
/// content; a disabled metric is not computed and stays zero.
pub fn count_file(cfg: &crate::config::Config, content: &Vec<u8>) -> (c: Counts)
    ensures
        c.lines == if cfg.lines {
            line_count(content@)
        } else {
            0
        },
        c.words == if cfg.words {
            word_count(content@)
        } else {
            0
        },
        c.bytes == if cfg.bytes {
            byte_count(content@)
        } else {
            0
        },
        c.chars == if cfg.chars {
            char_count(content@)
        } else {
            0
        },
{
    let lines = if cfg.lines {
        count_lines(content)
    } else {
        0
    };
    let words = if cfg.words {
        count_words(content)
    } else {
        0
    };
    let bytes = if cfg.bytes {
        count_bytes(content)
    } else {
        0
    };
    let chars = if cfg.chars {
        count_chars(content)
    } else {
        0
    };
    Counts { lines, words, bytes, chars }
}

} // verus!
