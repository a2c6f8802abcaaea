//! Rendering the report: one fixed-width row per successfully read input,
//! and a trailing totals row when more than one input was named.
//!
//! Every row holds, for each enabled metric in the fixed order lines,
//! words, bytes, characters, the metric's value right-aligned in a field
//! at least six bytes wide, then one space, the input's name as given (or
//! the word `total`), and a newline.

use vstd::prelude::*;

use crate::config::Config;
use crate::count::byte_count;
use crate::count::char_count;
use crate::count::count_file;
use crate::count::lemma_metrics_le_len;
use crate::count::line_count;
use crate::count::word_count;
use crate::count::Counts;

verus! {

/// The decimal digits of `n`, most significant first, as ASCII bytes.
pub open spec fn dec_digits(n: nat) -> Seq<u8>
    decreases n,
{
    if n < 10 {
        seq![(n + 48) as u8]
    } else {
        dec_digits(n / 10).push((n % 10 + 48) as u8)
    }
}

/// `k` ASCII space bytes.
pub open spec fn spaces(k: nat) -> Seq<u8> {
    Seq::new(k, |i: int| 32u8)
}

/// A report field: the decimal digits of `n`, right-aligned to at least
/// six bytes with leading spaces.
pub open spec fn padded_field(n: nat) -> Seq<u8> {
    let d = dec_digits(n);
    if d.len() >= 6 {
        d
    } else {
        spaces((6 - d.len()) as nat) + d
    }
}

/// The fields of one row: one padded field per enabled metric, in the
/// fixed order lines, words, bytes, characters.
pub open spec fn fields_for(cfg: Config, l: nat, w: nat, b: nat, m: nat) -> Seq<u8> {
    (if cfg.lines {
        padded_field(l)
    } else {
        Seq::empty()
    }) + (if cfg.words {
        padded_field(w)
    } else {
        Seq::empty()
    }) + (if cfg.bytes {
        padded_field(b)
    } else {
        Seq::empty()
    }) + (if cfg.chars {
        padded_field(m)
    } else {
        Seq::empty()
    })
}

/// The row reported for one input: the enabled metrics of its content,
/// a space, the input's name, and a newline.
pub open spec fn counts_line_spec(cfg: Config, content: Seq<u8>, name: Seq<u8>) -> Seq<u8> {
    fields_for(cfg, line_count(content), word_count(content), byte_count(content), char_count(content))
        + seq![32u8] + name + seq![10u8]
}

/// One input of a run: its name as given on the command line, and its
/// content, or nothing if it could not be read.
pub struct FileInput {
    pub name: Vec<u8>,
    pub content: Option<Vec<u8>>,
}

/// The rows of all inputs that were read, in input order; an unread input
/// contributes no row.
pub open spec fn report_body(cfg: Config, inputs: Seq<FileInput>) -> Seq<u8>
    decreases inputs.len(),
{
    if inputs.len() == 0 {
        Seq::empty()
    } else {
        report_body(cfg, inputs.drop_last()) + if inputs.last().content is Some {
            counts_line_spec(cfg, inputs.last().content->0@, inputs.last().name@)
        } else {
            Seq::empty()
        }
    }
}

/// The summed line count over the inputs that were read.
pub open spec fn total_lines(inputs: Seq<FileInput>) -> nat
    decreases inputs.len(),
{
    if inputs.len() == 0 {
        0
    } else {
        total_lines(inputs.drop_last()) + if inputs.last().content is Some {
            line_count(inputs.last().content->0@)
        } else {
            0nat
        }
    }
}

/// The summed word count over the inputs that were read.
pub open spec fn total_words(inputs: Seq<FileInput>) -> nat
    decreases inputs.len(),
{
    if inputs.len() == 0 {
        0
    } else {
        total_words(inputs.drop_last()) + if inputs.last().content is Some {
            word_count(inputs.last().content->0@)
        } else {
            0nat
        }
    }
}

/// The summed byte count over the inputs that were read.
pub open spec fn total_bytes(inputs: Seq<FileInput>) -> nat
    decreases inputs.len(),
{
    if inputs.len() == 0 {
        0
    } else {
        total_bytes(inputs.drop_last()) + if inputs.last().content is Some {
            byte_count(inputs.last().content->0@)
        } else {
            0nat
        }
    }
}

/// The summed character count over the inputs that were read.
pub open spec fn total_chars(inputs: Seq<FileInput>) -> nat
    decreases inputs.len(),
{
    if inputs.len() == 0 {
        0
    } else {
        total_chars(inputs.drop_last()) + if inputs.last().content is Some {
            char_count(inputs.last().content->0@)
        } else {
            0nat
        }
    }
}

/// The ASCII bytes of the word `total`.
pub open spec fn total_label() -> Seq<u8> {
    seq![116u8, 111u8, 116u8, 97u8, 108u8]
}

/// The trailing totals row: the summed enabled metrics, a space, the word
/// `total`, and a newline.
pub open spec fn totals_line_spec(cfg: Config, inputs: Seq<FileInput>) -> Seq<u8> {
    fields_for(cfg, total_lines(inputs), total_words(inputs), total_bytes(inputs), total_chars(inputs))
        + seq![32u8] + total_label() + seq![10u8]
}

/// The whole report: the per-input rows, then the totals row exactly when
/// more than one input was named, whether or not each was read.
pub open spec fn report_spec(cfg: Config, inputs: Seq<FileInput>) -> Seq<u8> {
    report_body(cfg, inputs) + if inputs.len() > 1 {
        totals_line_spec(cfg, inputs)
    } else {
        Seq::empty()
    }
}

/// Renders `n` in decimal, most significant digit first.
fn format_count(n: usize) -> (v: Vec<u8>)
    ensures
        v@ == dec_digits(n as nat),
    decreases n,
{
    if n < 10 {
        let mut v: Vec<u8> = Vec::new();
        v.push(n as u8 + 48);
        proof {
            assert(v@ =~= dec_digits(n as nat));
        }
        v
    } else {
        let mut v = format_count(n / 10);
        v.push((n % 10) as u8 + 48);
        v
    }
}

/// Renders `n` right-aligned in a field at least six bytes wide.
fn format_field(n: usize) -> (v: Vec<u8>)
    ensures
        v@ == padded_field(n as nat),
{
    let mut d = format_count(n);
    let mut v: Vec<u8> = Vec::new();
    let mut i = d.len();
    proof {
        assert(v@ =~= spaces(0));
    }
    while i < 6
        invariant
            d@ == dec_digits(n as nat),
            i >= d@.len(),
            i <= 6 || i == d@.len(),
            v@ == spaces((i - d@.len()) as nat),
        decreases 6 - i,
    {
        v.push(32);
        i = i + 1;
        proof {
            assert(v@ =~= spaces((i - d@.len()) as nat));
        }
    }
    v.append(&mut d);
    proof {
        assert(v@ =~= padded_field(n as nat));
    }
    v
}

/// Renders one report row from already-computed counts: one padded field
/// per enabled metric, a space, the given name, and a newline.
pub fn counts_line(cfg: &Config, counts: &Counts, name: &Vec<u8>) -> (v: Vec<u8>)
    ensures
        v@ == fields_for(
            *cfg,
            counts.lines as nat,
            counts.words as nat,
            counts.bytes as nat,
            counts.chars as nat,
        ) + seq![32u8] + name@ + seq![10u8],
{
    let mut v: Vec<u8> = Vec::new();
    if cfg.lines {
        let mut f = format_field(counts.lines);
        v.append(&mut f);
    }
    if cfg.words {
        let mut f = format_field(counts.words);
        v.append(&mut f);
    }
    if cfg.bytes {
        let mut f = format_field(counts.bytes);
        v.append(&mut f);
    }
    if cfg.chars {
        let mut f = format_field(counts.chars);
        v.append(&mut f);
    }
    proof {
        assert(v@ =~= fields_for(
            *cfg,
            counts.lines as nat,
            counts.words as nat,
            counts.bytes as nat,
            counts.chars as nat,
        ));
    }
    v.push(32);
    v.extend_from_slice(name.as_slice());
    v.push(10);
    proof {
        assert(v@ =~= fields_for(
            *cfg,
            counts.lines as nat,
            counts.words as nat,
            counts.bytes as nat,
            counts.chars as nat,
        ) + seq![32u8] + name@ + seq![10u8]);
    }
    v
}

/// Each summed metric is bounded by the summed byte count, because each
/// per-content metric is bounded by that content's length.
proof fn lemma_totals_le_bytes(inputs: Seq<FileInput>)
    ensures
        total_lines(inputs) <= total_bytes(inputs),
        total_words(inputs) <= total_bytes(inputs),
        total_chars(inputs) <= total_bytes(inputs),
    decreases inputs.len(),
{
    if inputs.len() > 0 {
        lemma_totals_le_bytes(inputs.drop_last());
        if inputs.last().content is Some {
            lemma_metrics_le_len(inputs.last().content->0@);
        }
    }
}

/// The summed metrics over a prefix never exceed the sums over the whole
/// input sequence.
proof fn lemma_totals_prefix(inputs: Seq<FileInput>, i: int)
    requires
        0 <= i <= inputs.len(),
    ensures
        total_lines(inputs.take(i)) <= total_lines(inputs),
        total_words(inputs.take(i)) <= total_words(inputs),
        total_bytes(inputs.take(i)) <= total_bytes(inputs),
        total_chars(inputs.take(i)) <= total_chars(inputs),
    decreases inputs.len() - i,
{
    if i == inputs.len() {
        assert(inputs.take(i) =~= inputs);
    } else {
        lemma_totals_prefix(inputs, i + 1);
        assert(inputs.take(i + 1).drop_last() =~= inputs.take(i));
    }
}

/// Law: the summed metrics are additive over splitting the input list, so
/// the totals of a run equal the sums of its files' individual metrics.
pub proof fn lemma_totals_concat(a: Seq<FileInput>, b: Seq<FileInput>)
    ensures
        total_lines(a + b) == total_lines(a) + total_lines(b),
        total_words(a + b) == total_words(a) + total_words(b),
        total_bytes(a + b) == total_bytes(a) + total_bytes(b),
        total_chars(a + b) == total_chars(a) + total_chars(b),
    decreases b.len(),
{
    if b.len() == 0 {
        assert(a + b =~= a);
    } else {
        lemma_totals_concat(a, b.drop_last());
        assert((a + b).drop_last() =~= a + b.drop_last());
        assert((a + b).last() == b.last());
    }
}

/// Law: a run over a single named input emits no totals row, whether or
/// not that input could be read.
pub proof fn lemma_single_input_no_totals(cfg: Config, inputs: Seq<FileInput>)
    requires
        inputs.len() <= 1,
    ensures
        report_spec(cfg, inputs) == report_body(cfg, inputs),
{
    assert(report_body(cfg, inputs) + Seq::<u8>::empty() =~= report_body(cfg, inputs));
}

/// Renders the whole report for one run: a row per input that was read,
/// in input order, then the totals row exactly when more than one input
/// was named. The byte bound keeps the running totals within `usize`.
pub fn report_all(cfg: &Config, inputs: &Vec<FileInput>) -> (out: Vec<u8>)
    requires
        total_bytes(inputs@) <= usize::MAX,
    ensures
        out@ == report_spec(*cfg, inputs@),
{
    let mut out: Vec<u8> = Vec::new();
    let mut tl: usize = 0;
    let mut tw: usize = 0;
    let mut tb: usize = 0;
    let mut tc: usize = 0;
    let mut i: usize = 0;
    proof {
        assert(inputs@.take(0).len() == 0);
        assert(out@ =~= report_body(*cfg, inputs@.take(0)));
    }
    while i < inputs.len()
        invariant
            i <= inputs@.len(),
            total_bytes(inputs@) <= usize::MAX,
            out@ == report_body(*cfg, inputs@.take(i as int)),
            tl == if cfg.lines {
                total_lines(inputs@.take(i as int))
            } else {
                0nat
            },
            tw == if cfg.words {
                total_words(inputs@.take(i as int))
            } else {
                0nat
            },
            tb == if cfg.bytes {
                total_bytes(inputs@.take(i as int))
            } else {
                0nat
            },
            tc == if cfg.chars {
                total_chars(inputs@.take(i as int))
            } else {
                0nat
            },
        decreases inputs@.len() - i,
    {
        proof {
            let stepped = inputs@.take(i as int + 1);
            assert(stepped.drop_last() =~= inputs@.take(i as int));
            assert(stepped.last() == inputs@[i as int]);
            lemma_totals_prefix(inputs@, i as int + 1);
            lemma_totals_le_bytes(inputs@.take(i as int + 1));
        }
        if let Some(content) = &inputs[i].content {
            let counts = count_file(cfg, content);
            let mut line = counts_line(cfg, &counts, &inputs[i].name);
            proof {
                assert(fields_for(
                    *cfg,
                    counts.lines as nat,
                    counts.words as nat,
                    counts.bytes as nat,
                    counts.chars as nat,
                ) == fields_for(
                    *cfg,
                    line_count(content@),
                    word_count(content@),
                    byte_count(content@),
                    char_count(content@),
                ));
            }
            out.append(&mut line);
            tl = tl + counts.lines;
            tw = tw + counts.words;
            tb = tb + counts.bytes;
            tc = tc + counts.chars;
        }
        i = i + 1;
    }
    proof {
        assert(inputs@.take(inputs@.len() as int) =~= inputs@);
    }
    if inputs.len() > 1 {
        let totals = Counts { lines: tl, words: tw, bytes: tb, chars: tc };
        let mut label: Vec<u8> = Vec::new();
        label.push(116);
        label.push(111);
        label.push(116);
        label.push(97);
        label.push(108);
        proof {
            assert(label@ =~= total_label());
            assert(fields_for(*cfg, tl as nat, tw as nat, tb as nat, tc as nat) == fields_for(
                *cfg,
                total_lines(inputs@),
                total_words(inputs@),
                total_bytes(inputs@),
                total_chars(inputs@),
            ));
        }
        let mut line = counts_line(cfg, &totals, &label);
        out.append(&mut line);
    }
    out
}

} // verus!
