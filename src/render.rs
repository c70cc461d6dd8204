//! How an emitted line is rendered to bytes.
use vstd::prelude::*;
use crate::config::ResolvedConfig;
use crate::lines::NEWLINE;

verus! {

/// A horizontal tab.
pub const TAB: u8 = 9;

/// Padding in the number field.
pub const SPACE: u8 = 32;

/// The end-of-line marker `$`.
pub const DOLLAR: u8 = 36;

/// `^`, the first byte of a visible tab.
pub const CARET: u8 = 94;

/// `I`, the second byte of a visible tab.
pub const LETTER_I: u8 = 73;

/// The digit `0`.
pub const DIGIT_ZERO: u8 = 48;

/// The width that line numbers are right-justified to.
pub const NUMBER_WIDTH: usize = 6;

/// One emitted line: the counter value it is labelled with, if any, and its
/// text without terminator.
pub struct LineRecord {
    pub label: Option<nat>,
    pub text: Seq<u8>,
}

/// `line` with every tab replaced by `^I`.
pub open spec fn tabs_shown(line: Seq<u8>) -> Seq<u8>
    decreases line.len(),
{
    if line.len() == 0 {
        seq![]
    } else if line.last() == TAB {
        tabs_shown(line.drop_last()) + seq![CARET, LETTER_I]
    } else {
        tabs_shown(line.drop_last()).push(line.last())
    }
}

/// The decimal digits of `n`, most significant first, without leading zeros.
pub open spec fn decimal(n: nat) -> Seq<u8>
    decreases n,
{
    if n < 10 {
        seq![(DIGIT_ZERO + n) as u8]
    } else {
        decimal(n / 10).push((DIGIT_ZERO + n % 10) as u8)
    }
}

/// `n` right-justified in a field of `NUMBER_WIDTH` spaces, then a tab.
pub open spec fn number_field(n: nat) -> Seq<u8> {
    let digits = decimal(n);
    let pad: int = if digits.len() < NUMBER_WIDTH { NUMBER_WIDTH - digits.len() } else { 0 };
    Seq::new(pad as nat, |_i: int| SPACE) + digits + seq![TAB]
}

/// The text of a line as `cfg` shows it, before any end marker.
pub open spec fn shown_text(cfg: ResolvedConfig, text: Seq<u8>) -> Seq<u8> {
    if cfg.show_tabs {
        tabs_shown(text)
    } else {
        text
    }
}

/// What precedes the text of a line: its number field, if it has a label.
pub open spec fn label_prefix(label: Option<nat>) -> Seq<u8> {
    match label {
        Some(n) => number_field(n),
        None => seq![],
    }
}

/// What follows the shown text of a line, before the newline.
pub open spec fn end_marker(cfg: ResolvedConfig) -> Seq<u8> {
    if cfg.show_ends {
        seq![DOLLAR]
    } else {
        seq![]
    }
}

/// The bytes written for one emitted line.
pub open spec fn render(cfg: ResolvedConfig, r: LineRecord) -> Seq<u8> {
    label_prefix(r.label) + shown_text(cfg, r.text) + end_marker(cfg) + seq![NEWLINE]
}

/// The bytes written for a sequence of emitted lines.
pub open spec fn render_all(cfg: ResolvedConfig, rs: Seq<LineRecord>) -> Seq<u8>
    decreases rs.len(),
{
    if rs.len() == 0 {
        seq![]
    } else {
        render_all(cfg, rs.drop_last()) + render(cfg, rs.last())
    }
}

pub proof fn lemma_render_all_push(cfg: ResolvedConfig, rs: Seq<LineRecord>, r: LineRecord)
    ensures
        render_all(cfg, rs.push(r)) == render_all(cfg, rs) + render(cfg, r),
{
    assert(rs.push(r).drop_last() =~= rs);
}

pub proof fn lemma_render_all_concat(cfg: ResolvedConfig, a: Seq<LineRecord>, b: Seq<LineRecord>)
    ensures
        render_all(cfg, a + b) == render_all(cfg, a) + render_all(cfg, b),
    decreases b.len(),
{
    if b.len() == 0 {
        assert(a + b =~= a);
        assert(render_all(cfg, a) + render_all(cfg, b) =~= render_all(cfg, a));
    } else {
        lemma_render_all_concat(cfg, a, b.drop_last());
        assert((a + b).drop_last() =~= a + b.drop_last());
        assert((a + b).last() == b.last());
        assert(render_all(cfg, a + b) =~= render_all(cfg, a) + render_all(cfg, b));
    }
}

/// Appends the decimal digits of `n`.
fn push_decimal(n: u64, out: &mut Vec<u8>)
    ensures
        final(out)@ == old(out)@ + decimal(n as nat),
    decreases n,
{
    if n >= 10 {
        push_decimal(n / 10, out);
    }
    out.push(DIGIT_ZERO + (n % 10) as u8);
    assert(final(out)@ =~= old(out)@ + decimal(n as nat));
}

/// Appends the number field of `n`.
pub fn push_number_field(n: u64, out: &mut Vec<u8>)
    ensures
        final(out)@ == old(out)@ + number_field(n as nat),
{
    let mut digits: Vec<u8> = Vec::new();
    push_decimal(n, &mut digits);
    assert(digits@ =~= decimal(n as nat));
    let mut pad: usize = 0;
    if digits.len() < NUMBER_WIDTH {
        pad = NUMBER_WIDTH - digits.len();
    }
    let ghost start = out@;
    let mut i: usize = 0;
    while i < pad
        invariant
            i <= pad,
            out@ == start + Seq::new(i as nat, |_j: int| SPACE),
        decreases pad - i,
    {
        out.push(SPACE);
        i += 1;
        assert(out@ =~= start + Seq::new(i as nat, |_j: int| SPACE));
    }
    let mut k: usize = 0;
    let ghost padded = out@;
    while k < digits.len()
        invariant
            k <= digits.len(),
            out@ == padded + digits@.take(k as int),
        decreases digits.len() - k,
    {
        out.push(digits[k]);
        k += 1;
        assert(out@ =~= padded + digits@.take(k as int));
    }
    out.push(TAB);
    assert(digits@.take(digits.len() as int) =~= digits@);
    assert(final(out)@ =~= old(out)@ + number_field(n as nat));
}

/// Appends `text` as `cfg` shows it.
pub fn push_shown_text(cfg: &ResolvedConfig, text: &Vec<u8>, out: &mut Vec<u8>)
    ensures
        final(out)@ == old(out)@ + shown_text(*cfg, text@),
{
    let ghost start = out@;
    let mut i: usize = 0;
    while i < text.len()
        invariant
            i <= text.len(),
            out@ == start + shown_text(*cfg, text@.take(i as int)),
        decreases text.len() - i,
    {
        assert(text@.take(i + 1).drop_last() =~= text@.take(i as int));
        assert(text@.take(i + 1).last() == text@[i as int]);
        let b = text[i];
        if cfg.show_tabs && b == TAB {
            out.push(CARET);
            out.push(LETTER_I);
        } else {
            out.push(b);
        }
        i += 1;
        assert(out@ =~= start + shown_text(*cfg, text@.take(i as int)));
    }
    assert(text@.take(text.len() as int) =~= text@);
}

} // verus!
