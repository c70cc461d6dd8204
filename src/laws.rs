//! Properties of the transformer, stated over the line model and proved.
use vstd::prelude::*;
use crate::config::ResolvedConfig;
use crate::lines::{lines_of, scan_lines, NEWLINE};
use crate::render::{
    LineRecord, render, render_all, lemma_render_all_concat, lemma_render_all_push, tabs_shown,
    label_prefix, end_marker, TAB, CARET, LETTER_I, DOLLAR,
};
use crate::transform::{source_scan, run_scan, run_output, numbered, line_record};

verus! {

/// Each line followed by a newline, concatenated.
pub open spec fn terminated(lines: Seq<Seq<u8>>) -> Seq<u8>
    decreases lines.len(),
{
    if lines.len() == 0 {
        seq![]
    } else {
        terminated(lines.drop_last()) + lines.last() + seq![NEWLINE]
    }
}

/// The lines of every text, in order.
pub open spec fn all_lines(texts: Seq<Seq<u8>>) -> Seq<Seq<u8>>
    decreases texts.len(),
{
    if texts.len() == 0 {
        seq![]
    } else {
        all_lines(texts.drop_last()) + lines_of(texts.last())
    }
}

/// `text` with a newline added unless it is empty or already ends in one.
pub open spec fn closed(text: Seq<u8>) -> Seq<u8> {
    if text.len() == 0 || text.last() == NEWLINE {
        text
    } else {
        text.push(NEWLINE)
    }
}

/// Every text closed, concatenated.
pub open spec fn closed_all(texts: Seq<Seq<u8>>) -> Seq<u8>
    decreases texts.len(),
{
    if texts.len() == 0 {
        seq![]
    } else {
        closed_all(texts.drop_last()) + closed(texts.last())
    }
}

/// No option that changes output is on.
pub open spec fn passes_through(cfg: ResolvedConfig) -> bool {
    !cfg.number && !cfg.squeeze_blank && !cfg.show_ends && !cfg.show_tabs
}

proof fn lemma_terminated_concat(a: Seq<Seq<u8>>, b: Seq<Seq<u8>>)
    ensures
        terminated(a + b) == terminated(a) + terminated(b),
    decreases b.len(),
{
    if b.len() == 0 {
        assert(a + b =~= a);
        assert(terminated(a) + terminated(b) =~= terminated(a));
    } else {
        lemma_terminated_concat(a, b.drop_last());
        assert((a + b).drop_last() =~= a + b.drop_last());
        assert((a + b).last() == b.last());
        assert(terminated(a + b) =~= terminated(a) + terminated(b));
    }
}

proof fn lemma_source_passes_through(cfg: ResolvedConfig, c0: nat, lines: Seq<Seq<u8>>)
    requires
        passes_through(cfg),
    ensures
        render_all(cfg, source_scan(cfg, c0, lines).0) == terminated(lines),
        source_scan(cfg, c0, lines).1 == c0,
    decreases lines.len(),
{
    if lines.len() > 0 {
        lemma_source_passes_through(cfg, c0, lines.drop_last());
        let (rs, c, blank) = source_scan(cfg, c0, lines.drop_last());
        let r = LineRecord { label: None, text: lines.last() };
        lemma_render_all_push(cfg, rs, r);
        assert(render(cfg, r) =~= lines.last() + seq![NEWLINE]);
        assert(render_all(cfg, source_scan(cfg, c0, lines).0) =~= terminated(lines));
    }
}

proof fn lemma_scan_rebuilds(text: Seq<u8>)
    ensures
        terminated(scan_lines(text).0) + scan_lines(text).1 == text,
        scan_lines(text).1.len() == 0 <==> (text.len() == 0 || text.last() == NEWLINE),
    decreases text.len(),
{
    if text.len() == 0 {
        assert(terminated(scan_lines(text).0) + scan_lines(text).1 =~= text);
    } else {
        lemma_scan_rebuilds(text.drop_last());
        let (done, open) = scan_lines(text.drop_last());
        assert(text =~= text.drop_last().push(text.last()));
        if text.last() == NEWLINE {
            assert(done.push(open).drop_last() =~= done);
            assert(terminated(scan_lines(text).0) + scan_lines(text).1 =~= text);
        } else {
            assert(terminated(scan_lines(text).0) + scan_lines(text).1 =~= text);
        }
    }
}

proof fn lemma_lines_closed(text: Seq<u8>)
    ensures
        terminated(lines_of(text)) == closed(text),
{
    lemma_scan_rebuilds(text);
    let (done, open) = scan_lines(text);
    if open.len() == 0 {
        assert(terminated(done) =~= terminated(done) + open);
    } else {
        assert(done.push(open).drop_last() =~= done);
        assert(text.last() == open.last());
        assert(terminated(lines_of(text)) =~= closed(text));
    }
}

/// With every output-changing option off, a run writes each line of each
/// source, in order, followed by a newline, and nothing else.
pub proof fn lemma_identity_transform(cfg: ResolvedConfig, texts: Seq<Seq<u8>>)
    requires
        passes_through(cfg),
    ensures
        run_output(cfg, texts) == terminated(all_lines(texts)),
        run_scan(cfg, texts).1 == 0,
    decreases texts.len(),
{
    if texts.len() > 0 {
        lemma_identity_transform(cfg, texts.drop_last());
        let (rs, c) = run_scan(cfg, texts.drop_last());
        lemma_source_passes_through(cfg, c, lines_of(texts.last()));
        lemma_render_all_concat(cfg, rs, source_scan(cfg, c, lines_of(texts.last())).0);
        lemma_terminated_concat(all_lines(texts.drop_last()), lines_of(texts.last()));
    }
}

/// With every output-changing option off, a run reproduces its sources byte
/// for byte, but for a newline added to a source whose last line lacks one.
pub proof fn lemma_round_trip(cfg: ResolvedConfig, texts: Seq<Seq<u8>>)
    requires
        passes_through(cfg),
    ensures
        run_output(cfg, texts) == closed_all(texts),
{
    lemma_identity_transform(cfg, texts);
    lemma_all_lines_closed(texts);
}

proof fn lemma_all_lines_closed(texts: Seq<Seq<u8>>)
    ensures
        terminated(all_lines(texts)) == closed_all(texts),
    decreases texts.len(),
{
    if texts.len() > 0 {
        lemma_all_lines_closed(texts.drop_last());
        lemma_terminated_concat(all_lines(texts.drop_last()), lines_of(texts.last()));
        lemma_lines_closed(texts.last());
    }
}

/// The number of records that carry a counter value.
pub open spec fn labelled_count(rs: Seq<LineRecord>) -> nat
    decreases rs.len(),
{
    if rs.len() == 0 {
        0
    } else {
        labelled_count(rs.drop_last()) + if rs.last().label is Some { 1nat } else { 0nat }
    }
}

/// The number of records whose text is not blank.
pub open spec fn nonblank_count(rs: Seq<LineRecord>) -> nat
    decreases rs.len(),
{
    if rs.len() == 0 {
        0
    } else {
        nonblank_count(rs.drop_last()) + if rs.last().text.len() > 0 { 1nat } else { 0nat }
    }
}

/// The record at `k` is labelled exactly when its line is numbered, and
/// then with `c0` plus one more than the labels before it.
pub open spec fn label_counts_up(cfg: ResolvedConfig, rs: Seq<LineRecord>, c0: nat, k: int) -> bool {
    &&& (rs[k].label is Some <==> numbered(cfg, rs[k].text))
    &&& (rs[k].label is Some ==> rs[k].label == Some(c0 + labelled_count(rs.take(k)) + 1))
}

/// The record at `k` is unlabelled if blank, and otherwise labelled one
/// more than the non-blank records before it.
pub open spec fn nonblank_label(rs: Seq<LineRecord>, k: int) -> bool {
    &&& (rs[k].text.len() == 0 ==> rs[k].label is None)
    &&& (rs[k].text.len() > 0 ==> rs[k].label == Some(nonblank_count(rs.take(k)) + 1))
}

proof fn lemma_labelled_concat(a: Seq<LineRecord>, b: Seq<LineRecord>)
    ensures
        labelled_count(a + b) == labelled_count(a) + labelled_count(b),
    decreases b.len(),
{
    if b.len() == 0 {
        assert(a + b =~= a);
    } else {
        lemma_labelled_concat(a, b.drop_last());
        assert((a + b).drop_last() =~= a + b.drop_last());
        assert((a + b).last() == b.last());
    }
}

proof fn lemma_labelled_all(rs: Seq<LineRecord>)
    requires
        forall|k: int| 0 <= k < rs.len() ==> (#[trigger] rs[k]).label is Some,
    ensures
        labelled_count(rs) == rs.len(),
    decreases rs.len(),
{
    if rs.len() > 0 {
        lemma_labelled_all(rs.drop_last());
    }
}

proof fn lemma_labelled_nonblank(rs: Seq<LineRecord>)
    requires
        forall|k: int| 0 <= k < rs.len() ==> ((#[trigger] rs[k]).label is Some <==> rs[k].text.len()
            > 0),
    ensures
        labelled_count(rs) == nonblank_count(rs),
    decreases rs.len(),
{
    if rs.len() > 0 {
        lemma_labelled_nonblank(rs.drop_last());
        assert(rs.last() == rs[rs.len() - 1]);
    }
}

/// Within one source, labels go up by one from the starting counter, and a
/// record is labelled exactly when its line is numbered.
proof fn lemma_source_labels(cfg: ResolvedConfig, c0: nat, lines: Seq<Seq<u8>>)
    ensures
        source_scan(cfg, c0, lines).1 == c0 + labelled_count(source_scan(cfg, c0, lines).0),
        forall|k: int|
            0 <= k < source_scan(cfg, c0, lines).0.len() ==> #[trigger] label_counts_up(
                cfg,
                source_scan(cfg, c0, lines).0,
                c0,
                k,
            ),
    decreases lines.len(),
{
    if lines.len() > 0 {
        lemma_source_labels(cfg, c0, lines.drop_last());
        let (rs, c, blank) = source_scan(cfg, c0, lines.drop_last());
        let new_rs = source_scan(cfg, c0, lines).0;
        if new_rs != rs {
            assert(new_rs.drop_last() =~= rs);
            assert forall|k: int| 0 <= k < new_rs.len() implies #[trigger] label_counts_up(
                cfg,
                new_rs,
                c0,
                k,
            ) by {
                if k < rs.len() {
                    assert(new_rs.take(k) =~= rs.take(k));
                    assert(label_counts_up(cfg, rs, c0, k));
                } else {
                    assert(new_rs.take(k) =~= rs);
                }
            }
        }
    }
}

/// Labels over a whole run: a record is labelled exactly when its line is
/// numbered, labels count up from one across source boundaries, and the
/// final counter is the number of labels given.
pub proof fn lemma_run_labels(cfg: ResolvedConfig, texts: Seq<Seq<u8>>)
    ensures
        run_scan(cfg, texts).1 == labelled_count(run_scan(cfg, texts).0),
        forall|k: int|
            0 <= k < run_scan(cfg, texts).0.len() ==> #[trigger] label_counts_up(
                cfg,
                run_scan(cfg, texts).0,
                0,
                k,
            ),
    decreases texts.len(),
{
    if texts.len() > 0 {
        lemma_run_labels(cfg, texts.drop_last());
        let (a, c) = run_scan(cfg, texts.drop_last());
        let b = source_scan(cfg, c, lines_of(texts.last())).0;
        lemma_source_labels(cfg, c, lines_of(texts.last()));
        lemma_labelled_concat(a, b);
        let rs = a + b;
        assert forall|k: int| 0 <= k < rs.len() implies #[trigger] label_counts_up(cfg, rs, 0, k) by {
            if k < a.len() {
                assert(rs.take(k) =~= a.take(k));
                assert(rs[k] == a[k]);
                assert(label_counts_up(cfg, a, 0, k));
            } else {
                let j = k - a.len();
                assert(rs.take(k) =~= a + b.take(j));
                assert(rs[k] == b[j]);
                assert(label_counts_up(cfg, b, c, j));
                lemma_labelled_concat(a, b.take(j));
            }
        }
    }
}

/// Numbering every line: the k-th emitted line of a run, counting from one
/// over all sources, carries the number k, and the counter ends at the
/// number of emitted lines.
pub proof fn lemma_sequential_numbers(cfg: ResolvedConfig, texts: Seq<Seq<u8>>)
    requires
        cfg.number,
        !cfg.number_nonblank,
    ensures
        forall|k: int|
            0 <= k < run_scan(cfg, texts).0.len() ==> (#[trigger] run_scan(cfg, texts).0[k]).label
                == Some((k + 1) as nat),
        run_scan(cfg, texts).1 == run_scan(cfg, texts).0.len(),
{
    lemma_run_labels(cfg, texts);
    let rs = run_scan(cfg, texts).0;
    assert forall|k: int| 0 <= k < rs.len() implies (#[trigger] rs[k]).label == Some((k + 1) as nat) by {
        assert(label_counts_up(cfg, rs, 0, k));
        assert forall|j: int| 0 <= j < rs.take(k).len() implies (#[trigger] rs.take(k)[j]).label is Some by {
            assert(rs.take(k)[j] == rs[j]);
            assert(label_counts_up(cfg, rs, 0, j));
        }
        lemma_labelled_all(rs.take(k));
    }
    assert forall|k: int| 0 <= k < rs.len() implies (#[trigger] rs[k]).label is Some by {
        assert(label_counts_up(cfg, rs, 0, k));
    }
    lemma_labelled_all(rs);
}

/// Numbering non-blank lines only: blank lines carry no number, and the
/// non-blank lines of a run are numbered one, two, three, ... in order,
/// across sources, skipping no value; the counter ends at their number.
pub proof fn lemma_nonblank_numbers(cfg: ResolvedConfig, texts: Seq<Seq<u8>>)
    requires
        cfg.number,
        cfg.number_nonblank,
    ensures
        forall|k: int|
            0 <= k < run_scan(cfg, texts).0.len() ==> #[trigger] nonblank_label(
                run_scan(cfg, texts).0,
                k,
            ),
        run_scan(cfg, texts).1 == nonblank_count(run_scan(cfg, texts).0),
{
    lemma_run_labels(cfg, texts);
    let rs = run_scan(cfg, texts).0;
    assert forall|k: int| 0 <= k < rs.len() implies #[trigger] nonblank_label(rs, k) by {
        assert(label_counts_up(cfg, rs, 0, k));
        assert forall|j: int| 0 <= j < rs.take(k).len() implies ((#[trigger] rs.take(k)[j]).label is Some
            <==> rs.take(k)[j].text.len() > 0) by {
            assert(rs.take(k)[j] == rs[j]);
            assert(label_counts_up(cfg, rs, 0, j));
        }
        lemma_labelled_nonblank(rs.take(k));
    }
    assert forall|k: int| 0 <= k < rs.len() implies ((#[trigger] rs[k]).label is Some
        <==> rs[k].text.len() > 0) by {
        assert(label_counts_up(cfg, rs, 0, k));
    }
    lemma_labelled_nonblank(rs);
}

/// `n` blank lines.
pub open spec fn blank_lines(n: nat) -> Seq<Seq<u8>> {
    Seq::new(n, |_i: int| Seq::<u8>::empty())
}

/// Whether the last line of a source's scan was blank is whether its last
/// line is blank.
proof fn lemma_blank_flag(cfg: ResolvedConfig, c0: nat, lines: Seq<Seq<u8>>)
    ensures
        source_scan(cfg, c0, lines).2 == (lines.len() > 0 && lines.last().len() == 0),
{
}

proof fn lemma_blank_flag_matches_records(cfg: ResolvedConfig, c0: nat, lines: Seq<Seq<u8>>)
    requires
        cfg.squeeze_blank,
    ensures
        source_scan(cfg, c0, lines).2 == (source_scan(cfg, c0, lines).0.len() > 0
            && source_scan(cfg, c0, lines).0.last().text.len() == 0),
        forall|k: int|
            0 <= k < source_scan(cfg, c0, lines).0.len() - 1 ==> !(
            #[trigger] source_scan(cfg, c0, lines).0[k].text.len() == 0 && source_scan(
                cfg,
                c0,
                lines,
            ).0[k + 1].text.len() == 0),
    decreases lines.len(),
{
    if lines.len() > 0 {
        lemma_blank_flag_matches_records(cfg, c0, lines.drop_last());
        let rs = source_scan(cfg, c0, lines.drop_last()).0;
        let new_rs = source_scan(cfg, c0, lines).0;
        if new_rs != rs {
            assert forall|k: int| 0 <= k < new_rs.len() - 1 implies !(#[trigger] new_rs[k].text.len()
                == 0 && new_rs[k + 1].text.len() == 0) by {
                if k + 1 < rs.len() {
                    assert(new_rs[k] == rs[k]);
                    assert(new_rs[k + 1] == rs[k + 1]);
                } else {
                    assert(new_rs[k] == rs.last());
                }
            }
        }
    }
}

/// Squeezing: within one source no two emitted lines in a row are blank.
pub proof fn lemma_no_adjacent_blanks(cfg: ResolvedConfig, c0: nat, lines: Seq<Seq<u8>>)
    requires
        cfg.squeeze_blank,
    ensures
        forall|k: int|
            0 <= k < source_scan(cfg, c0, lines).0.len() - 1 ==> !(
            #[trigger] source_scan(cfg, c0, lines).0[k].text.len() == 0 && source_scan(
                cfg,
                c0,
                lines,
            ).0[k + 1].text.len() == 0),
{
    lemma_blank_flag_matches_records(cfg, c0, lines);
}

/// Squeezing: a run of one or more blank lines that follows a non-blank line,
/// or opens a source, is emitted as exactly one blank line.
pub proof fn lemma_blank_run_once(cfg: ResolvedConfig, c0: nat, lines: Seq<Seq<u8>>, n: nat)
    requires
        cfg.squeeze_blank,
        n >= 1,
        lines.len() == 0 || lines.last().len() > 0,
    ensures
        source_scan(cfg, c0, lines + blank_lines(n)).0 == source_scan(cfg, c0, lines).0.push(
            line_record(cfg, seq![], source_scan(cfg, c0, lines).1),
        ),
        source_scan(cfg, c0, lines + blank_lines(n)).1 == source_scan(cfg, c0, lines.push(seq![])).1,
    decreases n,
{
    let all = lines + blank_lines(n);
    assert(all.last() =~= Seq::<u8>::empty());
    if n == 1 {
        assert(all.drop_last() =~= lines);
        assert(all =~= lines.push(seq![]));
        lemma_blank_flag(cfg, c0, lines);
    } else {
        assert(all.drop_last() =~= lines + blank_lines((n - 1) as nat));
        lemma_blank_run_once(cfg, c0, lines, (n - 1) as nat);
        lemma_blank_flag(cfg, c0, lines + blank_lines((n - 1) as nat));
        assert((lines + blank_lines((n - 1) as nat)).last() =~= Seq::<u8>::empty());
    }
}

proof fn lemma_first_line_kept(cfg: ResolvedConfig, c0: nat, lines: Seq<Seq<u8>>)
    requires
        lines.len() > 0,
    ensures
        source_scan(cfg, c0, lines).0.len() > 0,
        source_scan(cfg, c0, lines).0[0] == line_record(cfg, lines[0], c0),
    decreases lines.len(),
{
    if lines.len() == 1 {
        assert(lines.drop_last() =~= Seq::<Seq<u8>>::empty());
    } else {
        lemma_first_line_kept(cfg, c0, lines.drop_last());
    }
}

/// Squeezing never reaches across sources: a run's records are those of the
/// earlier sources followed by those of the new one scanned afresh, and the
/// first line of a source is always emitted, blank or not.
pub proof fn lemma_source_boundary(cfg: ResolvedConfig, texts: Seq<Seq<u8>>, text: Seq<u8>)
    ensures
        run_scan(cfg, texts.push(text)).0 == run_scan(cfg, texts).0 + source_scan(
            cfg,
            run_scan(cfg, texts).1,
            lines_of(text),
        ).0,
        lines_of(text).len() > 0 ==> run_scan(cfg, texts.push(text)).0[run_scan(
            cfg,
            texts,
        ).0.len() as int] == line_record(cfg, lines_of(text)[0], run_scan(cfg, texts).1),
{
    assert(texts.push(text).drop_last() =~= texts);
    if lines_of(text).len() > 0 {
        lemma_first_line_kept(cfg, run_scan(cfg, texts).1, lines_of(text));
    }
}

/// The number of tabs in `line`.
pub open spec fn tab_count(line: Seq<u8>) -> nat
    decreases line.len(),
{
    if line.len() == 0 {
        0
    } else {
        tab_count(line.drop_last()) + if line.last() == TAB { 1nat } else { 0nat }
    }
}

proof fn lemma_tabs_shown_concat(a: Seq<u8>, b: Seq<u8>)
    ensures
        tabs_shown(a + b) == tabs_shown(a) + tabs_shown(b),
    decreases b.len(),
{
    if b.len() == 0 {
        assert(a + b =~= a);
        assert(tabs_shown(a) + tabs_shown(b) =~= tabs_shown(a));
    } else {
        lemma_tabs_shown_concat(a, b.drop_last());
        assert((a + b).drop_last() =~= a + b.drop_last());
        assert((a + b).last() == b.last());
        assert(tabs_shown(a + b) =~= tabs_shown(a) + tabs_shown(b));
    }
}

proof fn lemma_tabs_shown_size(line: Seq<u8>)
    ensures
        !tabs_shown(line).contains(TAB),
        tabs_shown(line).len() == line.len() + tab_count(line),
    decreases line.len(),
{
    if line.len() > 0 {
        lemma_tabs_shown_size(line.drop_last());
        let prev = tabs_shown(line.drop_last());
        assert forall|i: int| 0 <= i < tabs_shown(line).len() implies tabs_shown(line)[i] != TAB by {
            if i < prev.len() {
                assert(tabs_shown(line)[i] == prev[i]);
            }
        }
    }
}

/// Showing tabs replaces each tab by `^I` and keeps every other byte, piece
/// by piece; no tab is left, and each tab adds one byte.
pub proof fn lemma_tabs_shown(a: Seq<u8>, b: Seq<u8>, x: u8)
    requires
        x != TAB,
    ensures
        tabs_shown(a + b) == tabs_shown(a) + tabs_shown(b),
        tabs_shown(seq![TAB]) == seq![CARET, LETTER_I],
        tabs_shown(seq![x]) == seq![x],
        !tabs_shown(a).contains(TAB),
        tabs_shown(a).len() == a.len() + tab_count(a),
{
    lemma_tabs_shown_concat(a, b);
    lemma_tabs_shown_size(a);
    assert(seq![TAB].drop_last() =~= Seq::<u8>::empty());
    assert(seq![TAB].last() == TAB);
    assert(seq![x].last() == x);
    assert(tabs_shown(Seq::<u8>::empty()) == Seq::<u8>::empty());
    assert(seq![x].drop_last() =~= Seq::<u8>::empty());
    assert(tabs_shown(seq![TAB]) =~= seq![CARET, LETTER_I]);
    assert(tabs_shown(seq![x]) =~= seq![x]);
}

/// With tabs shown, a line is written as its number field, its text with
/// tabs replaced, then the end marker, which comes after the replacement.
pub proof fn lemma_tab_rendering(cfg: ResolvedConfig, r: LineRecord)
    requires
        cfg.show_tabs,
    ensures
        render(cfg, r) == label_prefix(r.label) + tabs_shown(r.text) + end_marker(cfg) + seq![NEWLINE],
        cfg.show_ends ==> render(cfg, r) == label_prefix(r.label) + tabs_shown(r.text) + seq![
            DOLLAR,
            NEWLINE,
        ],
{
    if cfg.show_ends {
        assert(render(cfg, r) =~= label_prefix(r.label) + tabs_shown(r.text) + seq![DOLLAR, NEWLINE]);
    }
}

} // verus!
