//! The table renderer: a bordered, fixed-width, three-column text grid with
//! soft-wrapped, optionally centered cells and a uniform extra row height.

use vstd::prelude::*;
use vstd::string::*;

use crate::text::{
    cell_lines, char_run, dec_rep, dec_string, join_lines, join_with_newlines, lemma_cell_height,
    lemma_dec_len_monotone, lemma_dec_len_usize, lemma_max_line_len, lemma_views_push,
    lemma_wrap_all_elems, max_line_width,
    max_lines_len, max_nat, pad_line, pad_line_spec, repeat_char, split_lines, views_of, wrap_text,
};

verus! {

/// The mathematical shape of a table: everything the renderer's output
/// depends on, as plain sequences and numbers.
#[verifier::ext_equal]
pub struct TableShape {
    /// The three header cell texts.
    pub headers: Seq<Seq<char>>,
    /// The three column widths, in characters, borders excluded.
    pub column_widths: Seq<nat>,
    /// How many data rows follow the header row.
    pub row_count: nat,
    /// Text prepended to each data row's ordinal label.
    pub label_prefix: Seq<char>,
    /// Blank lines added to every row's content height.
    pub extra_height: nat,
    /// Center cell text both ways; otherwise align left and top.
    pub centered: bool,
}

impl TableShape {
    /// A well-formed shape: three columns of positive width, at least one
    /// data row, and sizes the machine's word can hold.
    pub open spec fn wf(self) -> bool {
        &&& self.headers.len() == 3
        &&& self.column_widths.len() == 3
        &&& forall|j: int| 0 <= j < 3 ==> self.column_widths[j] >= 1
        &&& 1 <= self.row_count
        &&& self.row_count + 1 <= usize::MAX
        &&& forall|j: int| 0 <= j < 3 ==> self.headers[j].len() + self.extra_height + 1
            <= usize::MAX
        &&& self.label_prefix.len() + self.extra_height + 22 <= usize::MAX
    }
}

/// The renderer's configuration: three headers, three column widths, a row
/// count, and the decoration settings.
pub struct TableSpec {
    /// The three header cell texts.
    pub headers: Vec<String>,
    /// The three column widths, in characters, borders excluded.
    pub column_widths: Vec<usize>,
    /// How many data rows follow the header row.
    pub row_count: usize,
    /// Text prepended to each data row's ordinal label.
    pub label_prefix: String,
    /// Blank lines added to every row's content height.
    pub extra_height: usize,
    /// Center cell text both ways; otherwise align left and top.
    pub centered: bool,
}

impl View for TableSpec {
    type V = TableShape;

    open spec fn view(&self) -> TableShape {
        TableShape {
            headers: self.headers@.map_values(|h: String| h@),
            column_widths: self.column_widths@.map_values(|w: usize| w as nat),
            row_count: self.row_count as nat,
            label_prefix: self.label_prefix@,
            extra_height: self.extra_height as nat,
            centered: self.centered,
        }
    }
}

/// A horizontal rule: `+` at each column boundary, `-` across each column.
pub open spec fn rule_spec(w0: nat, w1: nat, w2: nat) -> Seq<char> {
    seq!['+'] + repeat_char('-', w0) + seq!['+'] + repeat_char('-', w1) + seq!['+'] + repeat_char(
        '-',
        w2,
    ) + seq!['+']
}

/// A cell's wrapped lines, each padded to the column width.
pub open spec fn hpad_all(lines: Seq<Seq<char>>, w: nat, centered: bool) -> Seq<Seq<char>> {
    lines.map_values(|l: Seq<char>| pad_line_spec(l, w, centered))
}

/// A full-width blank line of a single column.
pub open spec fn blank_line(w: nat) -> Seq<char> {
    repeat_char(' ', w)
}

/// `n` copies of the same line.
pub open spec fn repeat_line(l: Seq<char>, n: nat) -> Seq<Seq<char>> {
    Seq::new(n, |i: int| l)
}

/// Lines padded with blank lines to height `h`: centered vertically, or
/// aligned to the top.
pub open spec fn vpad(lines: Seq<Seq<char>>, w: nat, h: nat, centered: bool) -> Seq<Seq<char>>
    recommends
        lines.len() <= h,
{
    let gap = (h - lines.len()) as nat;
    let top = if centered {
        gap / 2
    } else {
        0
    };
    repeat_line(blank_line(w), top) + lines + repeat_line(blank_line(w), (gap - top) as nat)
}

/// One cell rendered as exactly `h` physical lines of exactly `w` characters.
pub open spec fn cell_block(text: Seq<char>, w: nat, h: nat, centered: bool) -> Seq<Seq<char>>
    recommends
        cell_lines(text, w).len() <= h,
{
    vpad(hpad_all(cell_lines(text, w), w, centered), w, h, centered)
}

/// A rendered cell block has exactly `h` lines.
pub proof fn lemma_cell_block_len(text: Seq<char>, w: nat, h: nat, centered: bool)
    requires
        cell_lines(text, w).len() <= h,
    ensures
        cell_block(text, w, h, centered).len() == h,
{
}

/// Three cell lines fused into one bordered physical line.
pub open spec fn fuse3(a: Seq<char>, b: Seq<char>, c: Seq<char>) -> Seq<char> {
    seq!['|'] + a + seq!['|'] + b + seq!['|'] + c + seq!['|']
}

/// The larger of three cell heights.
pub open spec fn max3(a: nat, b: nat, c: nat) -> nat {
    max_nat(a, max_nat(b, c))
}

/// A row's height: the tallest wrapped cell, plus the uniform extra height.
pub open spec fn row_height_spec(
    c0: Seq<char>,
    c1: Seq<char>,
    c2: Seq<char>,
    w0: nat,
    w1: nat,
    w2: nat,
    extra: nat,
) -> nat {
    max3(cell_lines(c0, w0).len(), cell_lines(c1, w1).len(), cell_lines(c2, w2).len()) + extra
}

/// One row rendered as bordered physical lines.
pub open spec fn row_lines_spec(
    c0: Seq<char>,
    c1: Seq<char>,
    c2: Seq<char>,
    w0: nat,
    w1: nat,
    w2: nat,
    extra: nat,
    centered: bool,
) -> Seq<Seq<char>> {
    let h = row_height_spec(c0, c1, c2, w0, w1, w2, extra);
    Seq::new(
        h,
        |k: int|
            fuse3(
                cell_block(c0, w0, h, centered)[k],
                cell_block(c1, w1, h, centered)[k],
                cell_block(c2, w2, h, centered)[k],
            ),
    )
}

/// Builds the horizontal rule for the three column widths.
pub fn make_rule(w0: usize, w1: usize, w2: usize) -> (r: String)
    ensures
        r@ == rule_spec(w0 as nat, w1 as nat, w2 as nat),
{
    proof {
        reveal_strlit("+");
        reveal_strlit("-");
    }
    let mut out = String::from_str("+");
    let d0 = char_run("-", w0);
    out.append(d0.as_str());
    out.append("+");
    let d1 = char_run("-", w1);
    out.append(d1.as_str());
    out.append("+");
    let d2 = char_run("-", w2);
    out.append(d2.as_str());
    out.append("+");
    proof {
        assert(out@ =~= rule_spec(w0 as nat, w1 as nat, w2 as nat));
    }
    out
}

/// Renders one cell as exactly `h` physical lines of width `w`.
fn build_cell_block(text: &str, w: usize, h: usize, centered: bool) -> (r: Vec<String>)
    requires
        w >= 1,
        cell_lines(text@, w as nat).len() <= h,
    ensures
        views_of(r@) == cell_block(text@, w as nat, h as nat, centered),
        r@.len() == h,
{
    let ghost content = cell_lines(text@, w as nat);
    let chunks = wrap_text(text, w);
    let n = chunks.len();
    proof {
        lemma_wrap_all_elems(split_lines(text@), w as nat);
    }
    let gap = h - n;
    let top: usize = if centered {
        gap / 2
    } else {
        0
    };
    let mut out: Vec<String> = Vec::new();
    let mut k: usize = 0;
    proof {
        reveal_strlit(" ");
        assert(views_of(out@) =~~= repeat_line(blank_line(w as nat), 0));
    }
    while k < top
        invariant
            k <= top,
            w >= 1,
            views_of(out@) =~~= repeat_line(blank_line(w as nat), k as nat),
        decreases top - k,
    {
        proof {
            reveal_strlit(" ");
        }
        let blank = char_run(" ", w);
        proof {
            assert(blank@ =~= blank_line(w as nat));
            lemma_views_push(out@, blank);
        }
        out.push(blank);
        k = k + 1;
        proof {
            assert(views_of(out@) =~~= repeat_line(blank_line(w as nat), k as nat));
        }
    }
    let mut i: usize = 0;
    while i < n
        invariant
            i <= n,
            w >= 1,
            n == chunks@.len(),
            views_of(chunks@) == content,
            forall|j: int| 0 <= j < content.len() ==> (#[trigger] content[j]).len() <= w as nat,
            views_of(out@) =~~= repeat_line(blank_line(w as nat), top as nat) + hpad_all(
                content.take(i as int),
                w as nat,
                centered,
            ),
        decreases n - i,
    {
        proof {
            assert(views_of(chunks@)[i as int] == chunks@[i as int]@);
            assert(content[i as int].len() <= w as nat);
        }
        let padded = pad_line(chunks[i].as_str(), w, centered);
        proof {
            lemma_views_push(out@, padded);
        }
        out.push(padded);
        i = i + 1;
        proof {
            assert(hpad_all(content.take(i as int), w as nat, centered) =~~= hpad_all(
                content.take(i as int - 1),
                w as nat,
                centered,
            ).push(pad_line_spec(content[i as int - 1], w as nat, centered)));
            assert(views_of(out@) =~~= repeat_line(blank_line(w as nat), top as nat) + hpad_all(
                content.take(i as int),
                w as nat,
                centered,
            ));
        }
    }
    let bottom = gap - top;
    let mut b: usize = 0;
    while b < bottom
        invariant
            b <= bottom,
            w >= 1,
            views_of(out@) =~~= repeat_line(blank_line(w as nat), top as nat) + hpad_all(
                content.take(content.len() as int),
                w as nat,
                centered,
            ) + repeat_line(blank_line(w as nat), b as nat),
        decreases bottom - b,
    {
        proof {
            reveal_strlit(" ");
        }
        let blank = char_run(" ", w);
        proof {
            assert(blank@ =~= blank_line(w as nat));
            lemma_views_push(out@, blank);
        }
        out.push(blank);
        b = b + 1;
        proof {
            assert(views_of(out@) =~~= repeat_line(blank_line(w as nat), top as nat) + hpad_all(
                content.take(content.len() as int),
                w as nat,
                centered,
            ) + repeat_line(blank_line(w as nat), b as nat));
        }
    }
    proof {
        assert(content.take(content.len() as int) =~~= content);
        assert(views_of(out@) =~~= cell_block(text@, w as nat, h as nat, centered));
    }
    out
}

/// Renders one row: three cells wrapped, padded, fused between `|` borders.
fn build_row_lines(
    c0: &str,
    c1: &str,
    c2: &str,
    w0: usize,
    w1: usize,
    w2: usize,
    extra: usize,
    centered: bool,
) -> (r: Vec<String>)
    requires
        w0 >= 1,
        w1 >= 1,
        w2 >= 1,
        cell_lines(c0@, w0 as nat).len() + extra <= usize::MAX,
        cell_lines(c1@, w1 as nat).len() + extra <= usize::MAX,
        cell_lines(c2@, w2 as nat).len() + extra <= usize::MAX,
    ensures
        views_of(r@) == row_lines_spec(
            c0@,
            c1@,
            c2@,
            w0 as nat,
            w1 as nat,
            w2 as nat,
            extra as nat,
            centered,
        ),
        r@.len() >= 1,
{
    let t0 = wrap_text(c0, w0);
    let t1 = wrap_text(c1, w1);
    let t2 = wrap_text(c2, w2);
    let n0 = t0.len();
    let n1 = t1.len();
    let n2 = t2.len();
    let m01 = if n0 >= n1 {
        n0
    } else {
        n1
    };
    let maxh = if m01 >= n2 {
        m01
    } else {
        n2
    };
    proof {
        lemma_cell_height(c0@, w0 as nat);
    }
    let h = maxh + extra;
    let ghost hs = row_height_spec(
        c0@,
        c1@,
        c2@,
        w0 as nat,
        w1 as nat,
        w2 as nat,
        extra as nat,
    );
    proof {
        assert(h as nat == hs);
    }
    let b0 = build_cell_block(c0, w0, h, centered);
    let b1 = build_cell_block(c1, w1, h, centered);
    let b2 = build_cell_block(c2, w2, h, centered);
    let mut out: Vec<String> = Vec::new();
    let mut k: usize = 0;
    proof {
        assert(views_of(out@) =~~= row_lines_spec(
            c0@,
            c1@,
            c2@,
            w0 as nat,
            w1 as nat,
            w2 as nat,
            extra as nat,
            centered,
        ).take(0));
    }
    while k < h
        invariant
            k <= h,
            h as nat == hs,
            hs == row_height_spec(
                c0@,
                c1@,
                c2@,
                w0 as nat,
                w1 as nat,
                w2 as nat,
                extra as nat,
            ),
            b0@.len() == h,
            b1@.len() == h,
            b2@.len() == h,
            views_of(b0@) == cell_block(c0@, w0 as nat, h as nat, centered),
            views_of(b1@) == cell_block(c1@, w1 as nat, h as nat, centered),
            views_of(b2@) == cell_block(c2@, w2 as nat, h as nat, centered),
            views_of(out@) =~~= row_lines_spec(
                c0@,
                c1@,
                c2@,
                w0 as nat,
                w1 as nat,
                w2 as nat,
                extra as nat,
                centered,
            ).take(k as int),
        decreases h - k,
    {
        proof {
            reveal_strlit("|");
        }
        let mut line = String::from_str("|");
        line.append(b0[k].as_str());
        line.append("|");
        line.append(b1[k].as_str());
        line.append("|");
        line.append(b2[k].as_str());
        line.append("|");
        proof {
            assert(line@ =~= fuse3(views_of(b0@)[k as int], views_of(b1@)[k as int], views_of(
                b2@,
            )[k as int]));
            lemma_views_push(out@, line);
        }
        out.push(line);
        k = k + 1;
        proof {
            let full = row_lines_spec(
                c0@,
                c1@,
                c2@,
                w0 as nat,
                w1 as nat,
                w2 as nat,
                extra as nat,
                centered,
            );
            assert(full.len() == hs);
            assert(full[k as int - 1] == fuse3(
                cell_block(c0@, w0 as nat, hs, centered)[k as int - 1],
                cell_block(c1@, w1 as nat, hs, centered)[k as int - 1],
                cell_block(c2@, w2 as nat, hs, centered)[k as int - 1],
            ));
            assert(full.take(k as int) =~~= full.take(k as int - 1).push(full[k as int - 1]));
            assert(views_of(out@) =~~= full.take(k as int));
        }
    }
    proof {
        let full = row_lines_spec(
            c0@,
            c1@,
            c2@,
            w0 as nat,
            w1 as nat,
            w2 as nat,
            extra as nat,
            centered,
        );
        assert(full.take(h as int) =~~= full);
    }
    out
}

/// The cells of row `i`: row 0 is the header row; data row `i >= 1` holds its
/// ordinal label in the first column and empty cells elsewhere.
pub open spec fn ts_row_cell(ts: TableShape, i: int, j: int) -> Seq<char> {
    if i == 0 {
        ts.headers[j]
    } else if j == 0 {
        ts.label_prefix + dec_rep(i as nat)
    } else {
        Seq::<char>::empty()
    }
}

/// Row `i` rendered as bordered physical lines.
pub open spec fn ts_row_lines(ts: TableShape, i: int) -> Seq<Seq<char>> {
    row_lines_spec(
        ts_row_cell(ts, i, 0),
        ts_row_cell(ts, i, 1),
        ts_row_cell(ts, i, 2),
        ts.column_widths[0],
        ts.column_widths[1],
        ts.column_widths[2],
        ts.extra_height,
        ts.centered,
    )
}

/// The table's horizontal rule line.
pub open spec fn ts_rule(ts: TableShape) -> Seq<char> {
    rule_spec(ts.column_widths[0], ts.column_widths[1], ts.column_widths[2])
}

/// The physical lines of the table's first `n` rows: a rule line, then each
/// row's lines followed by a rule line.
pub open spec fn table_lines_upto(ts: TableShape, n: int) -> Seq<Seq<char>>
    decreases n,
{
    if n <= 0 {
        seq![ts_rule(ts)]
    } else {
        table_lines_upto(ts, n - 1) + ts_row_lines(ts, n - 1) + seq![ts_rule(ts)]
    }
}

/// All physical lines of the table: the header row plus `row_count` data
/// rows, each bordered above and below.
pub open spec fn table_lines(ts: TableShape) -> Seq<Seq<char>> {
    table_lines_upto(ts, ts.row_count as int + 1)
}

/// The rendered table: all physical lines joined with single line breaks.
pub open spec fn spec_render_table(ts: TableShape) -> Seq<char> {
    join_lines(table_lines(ts))
}

/// Renders the table described by `ts`: a rule line, then each row (header
/// first, data rows by ascending ordinal) as a bordered block followed by a
/// rule line, all joined with `'\n'` and no trailing break.
pub fn build_infusion_table(ts: &TableSpec) -> (r: String)
    requires
        ts@.wf(),
    ensures
        r@ == spec_render_table(ts@),
{
    let w0 = ts.column_widths[0];
    let w1 = ts.column_widths[1];
    let w2 = ts.column_widths[2];
    proof {
        assert(ts@.column_widths[0] == w0 as nat);
        assert(ts@.column_widths[1] == w1 as nat);
        assert(ts@.column_widths[2] == w2 as nat);
    }
    let rule = make_rule(w0, w1, w2);
    let mut lines: Vec<String> = Vec::new();
    lines.push(rule.clone());
    let mut i: usize = 0;
    proof {
        assert(views_of(lines@) =~~= table_lines_upto(ts@, 0));
    }
    while i <= ts.row_count
        invariant
            i <= ts.row_count + 1,
            ts@.wf(),
            w0 as nat == ts@.column_widths[0],
            w1 as nat == ts@.column_widths[1],
            w2 as nat == ts@.column_widths[2],
            rule@ == ts_rule(ts@),
            views_of(lines@) =~~= table_lines_upto(ts@, i as int),
        decreases ts.row_count + 1 - i,
    {
        let ghost pre = views_of(lines@);
        let mut row: Vec<String>;
        if i == 0 {
            proof {
                assert(ts@.headers[0] == ts.headers@[0]@);
                assert(ts@.headers[1] == ts.headers@[1]@);
                assert(ts@.headers[2] == ts.headers@[2]@);
                lemma_cell_height(ts.headers@[0]@, w0 as nat);
                lemma_cell_height(ts.headers@[1]@, w1 as nat);
                lemma_cell_height(ts.headers@[2]@, w2 as nat);
            }
            row = build_row_lines(
                ts.headers[0].as_str(),
                ts.headers[1].as_str(),
                ts.headers[2].as_str(),
                w0,
                w1,
                w2,
                ts.extra_height,
                ts.centered,
            );
            proof {
                assert(views_of(row@) == ts_row_lines(ts@, 0));
            }
        } else {
            let mut label = ts.label_prefix.clone();
            let d = dec_string(i);
            label.append(d.as_str());
            proof {
                reveal_strlit("");
                assert(""@ =~= Seq::<char>::empty());
                lemma_dec_len_usize(i);
                lemma_cell_height(label@, w0 as nat);
                lemma_cell_height(""@, w1 as nat);
                lemma_cell_height(""@, w2 as nat);
            }
            row = build_row_lines(label.as_str(), "", "", w0, w1, w2, ts.extra_height, ts.centered);
            proof {
                assert(label@ == ts_row_cell(ts@, i as int, 0));
                assert(""@ =~= ts_row_cell(ts@, i as int, 1));
                assert(""@ =~= ts_row_cell(ts@, i as int, 2));
                assert(views_of(row@) == ts_row_lines(ts@, i as int));
            }
        }
        let ghost row_views = views_of(row@);
        lines.append(&mut row);
        lines.push(rule.clone());
        i = i + 1;
        proof {
            assert(table_lines_upto(ts@, i as int) == table_lines_upto(ts@, i as int - 1)
                + ts_row_lines(ts@, i as int - 1) + seq![ts_rule(ts@)]);
            assert(views_of(lines@) =~~= pre + row_views + seq![rule@]);
            assert(views_of(lines@) =~~= table_lines_upto(ts@, i as int));
        }
    }
    join_with_newlines(&lines)
}

/// The decorated tea-infusion log: `#`, `Body` and `Notes` headers on their
/// own line, columns 3, 20 and 100 characters wide, five numbered rows,
/// everything centered, and three extra blank lines per row.
pub open spec fn default_table_shape() -> TableShape {
    TableShape {
        headers: seq!["\n#"@, "\nBody"@, "\nNotes"@],
        column_widths: seq![3 as nat, 20 as nat, 100 as nat],
        row_count: 5,
        label_prefix: "\n"@,
        extra_height: 3,
        centered: true,
    }
}

/// Renders the default five-row tea-infusion log.
pub fn build_default_infusion_table() -> (r: String)
    ensures
        r@ == spec_render_table(default_table_shape()),
{
    let mut headers: Vec<String> = Vec::new();
    headers.push(String::from_str("\n#"));
    headers.push(String::from_str("\nBody"));
    headers.push(String::from_str("\nNotes"));
    let mut widths: Vec<usize> = Vec::new();
    widths.push(3);
    widths.push(20);
    widths.push(100);
    let ts = TableSpec {
        headers,
        column_widths: widths,
        row_count: 5,
        label_prefix: String::from_str("\n"),
        extra_height: 3,
        centered: true,
    };
    proof {
        reveal_strlit("\n#");
        reveal_strlit("\nBody");
        reveal_strlit("\nNotes");
        reveal_strlit("\n");
        assert(ts@.headers =~~= default_table_shape().headers);
        assert(ts@.column_widths =~~= default_table_shape().column_widths);
        assert(ts@ =~~= default_table_shape());
        assert(ts@.wf());
    }
    build_infusion_table(&ts)
}

/// Whether a physical line begins with the given character.
pub open spec fn line_starts(l: Seq<char>, c: char) -> bool {
    l.len() >= 1 && l[0] == c
}

/// How many lines are horizontal rule lines; they begin with `'+'`.
pub open spec fn count_rule_lines(lines: Seq<Seq<char>>) -> nat
    decreases lines.len(),
{
    if lines.len() == 0 {
        0
    } else {
        count_rule_lines(lines.drop_last()) + if line_starts(lines.last(), '+') {
            1 as nat
        } else {
            0 as nat
        }
    }
}

/// How many maximal runs of bordered content lines; content lines begin
/// with `'|'`.
pub open spec fn count_content_blocks(lines: Seq<Seq<char>>) -> nat
    decreases lines.len(),
{
    if lines.len() == 0 {
        0
    } else {
        count_content_blocks(lines.drop_last()) + if line_starts(lines.last(), '|') && (lines.len()
            == 1 || !line_starts(lines[lines.len() - 2], '|')) {
            1 as nat
        } else {
            0 as nat
        }
    }
}

/// Every padded line is exactly the column width.
proof fn lemma_pad_width(l: Seq<char>, w: nat, centered: bool)
    requires
        l.len() <= w,
    ensures
        pad_line_spec(l, w, centered).len() == w,
{
}

/// Every line of a rendered cell block is exactly the column width.
proof fn lemma_cell_block_widths(text: Seq<char>, w: nat, h: nat, centered: bool)
    requires
        w >= 1,
        cell_lines(text, w).len() <= h,
    ensures
        forall|k: int|
            0 <= k < h ==> (#[trigger] cell_block(text, w, h, centered)[k]).len() == w,
{
    lemma_wrap_all_elems(split_lines(text), w);
    let content = cell_lines(text, w);
    let padded = hpad_all(content, w, centered);
    assert forall|k: int| 0 <= k < h implies (#[trigger] cell_block(text, w, h, centered)[k]).len()
        == w by {
        let gap = (h - content.len()) as nat;
        let top = if centered {
            gap / 2
        } else {
            0
        };
        let block = cell_block(text, w, h, centered);
        if k < top {
            assert(block[k] == blank_line(w));
        } else if k < top + content.len() {
            assert(block[k] == padded[k - top]);
            lemma_pad_width(content[k - top], w, centered);
        } else {
            assert(block[k] == blank_line(w));
        }
    }
}

/// Every physical line of a row begins with a `'|'` border and spans the
/// full table width, and a row is at least one line tall.
proof fn lemma_row_lines_shape(ts: TableShape, i: int)
    requires
        ts.wf(),
        0 <= i,
    ensures
        ts_row_lines(ts, i).len() >= 1,
        forall|k: int|
            0 <= k < ts_row_lines(ts, i).len() ==> line_starts(
                #[trigger] ts_row_lines(ts, i)[k],
                '|',
            ),
        forall|k: int|
            0 <= k < ts_row_lines(ts, i).len() ==> (#[trigger] ts_row_lines(ts, i)[k]).len()
                == ts.column_widths[0] + ts.column_widths[1] + ts.column_widths[2] + 4,
{
    lemma_cell_height(ts_row_cell(ts, i, 0), ts.column_widths[0]);
    lemma_cell_height(ts_row_cell(ts, i, 1), ts.column_widths[1]);
    lemma_cell_height(ts_row_cell(ts, i, 2), ts.column_widths[2]);
    let rl = ts_row_lines(ts, i);
    let h = row_height_spec(
        ts_row_cell(ts, i, 0),
        ts_row_cell(ts, i, 1),
        ts_row_cell(ts, i, 2),
        ts.column_widths[0],
        ts.column_widths[1],
        ts.column_widths[2],
        ts.extra_height,
    );
    lemma_cell_block_widths(ts_row_cell(ts, i, 0), ts.column_widths[0], h, ts.centered);
    lemma_cell_block_widths(ts_row_cell(ts, i, 1), ts.column_widths[1], h, ts.centered);
    lemma_cell_block_widths(ts_row_cell(ts, i, 2), ts.column_widths[2], h, ts.centered);
    assert forall|k: int| 0 <= k < rl.len() implies line_starts(#[trigger] rl[k], '|') && rl[
        k
    ].len() == ts.column_widths[0] + ts.column_widths[1] + ts.column_widths[2] + 4 by {
        let a = cell_block(ts_row_cell(ts, i, 0), ts.column_widths[0], h, ts.centered)[k];
        let b = cell_block(ts_row_cell(ts, i, 1), ts.column_widths[1], h, ts.centered)[k];
        let c = cell_block(ts_row_cell(ts, i, 2), ts.column_widths[2], h, ts.centered)[k];
        assert(rl[k] == fuse3(a, b, c));
        assert(fuse3(a, b, c)[0] == '|');
        assert(fuse3(a, b, c).len() == a.len() + b.len() + c.len() + 4);
    }
}

/// Appending one row's content lines to a table that ends in a rule line
/// starts exactly one new content block and no rule line.
proof fn lemma_count_append_content(lines: Seq<Seq<char>>, block: Seq<Seq<char>>)
    requires
        lines.len() >= 1,
        !line_starts(lines.last(), '|'),
        block.len() >= 1,
        forall|k: int| 0 <= k < block.len() ==> line_starts(#[trigger] block[k], '|'),
    ensures
        count_rule_lines(lines + block) == count_rule_lines(lines),
        count_content_blocks(lines + block) == count_content_blocks(lines) + 1,
        (lines + block).last() == block.last(),
        (lines + block).len() == lines.len() + block.len(),
    decreases block.len(),
{
    let all = lines + block;
    if block.len() == 1 {
        assert(all.drop_last() =~~= lines);
        assert(all.last() == block[0]);
        assert(all[all.len() - 2] == lines.last());
    } else {
        lemma_count_append_content(lines, block.drop_last());
        assert(lines + block.drop_last() =~~= all.drop_last());
        assert(all[all.len() - 2] == block[block.len() - 2]);
        assert(line_starts(all[all.len() - 2], '|'));
    }
}

/// Appending a rule line adds one rule and starts no content block.
proof fn lemma_count_append_rule(lines: Seq<Seq<char>>, rule: Seq<char>)
    requires
        lines.len() >= 1,
        line_starts(rule, '+'),
    ensures
        count_rule_lines(lines.push(rule)) == count_rule_lines(lines) + 1,
        count_content_blocks(lines.push(rule)) == count_content_blocks(lines),
        lines.push(rule).last() == rule,
{
    assert(lines.push(rule).drop_last() =~~= lines);
}

/// The first `n` rows render as `n + 1` rule lines enclosing `n` content
/// blocks, ending in a rule line.
proof fn lemma_table_counts_upto(ts: TableShape, n: int)
    requires
        ts.wf(),
        0 <= n,
    ensures
        table_lines_upto(ts, n).len() >= 1,
        count_rule_lines(table_lines_upto(ts, n)) == n + 1,
        count_content_blocks(table_lines_upto(ts, n)) == n,
        table_lines_upto(ts, n).last() == ts_rule(ts),
        line_starts(ts_rule(ts), '+'),
        forall|k: int|
            0 <= k < table_lines_upto(ts, n).len() ==> (#[trigger] table_lines_upto(ts, n)[k]
                == ts_rule(ts) || line_starts(table_lines_upto(ts, n)[k], '|')),
        forall|k: int|
            0 <= k < table_lines_upto(ts, n).len() ==> (#[trigger] table_lines_upto(ts, n)[k]).len()
                == ts.column_widths[0] + ts.column_widths[1] + ts.column_widths[2] + 4,
    decreases n,
{
    assert(ts_rule(ts).len() == ts.column_widths[0] + ts.column_widths[1] + ts.column_widths[2]
        + 4);
    assert(ts_rule(ts)[0] == '+');
    if n == 0 {
        let single = table_lines_upto(ts, 0);
        assert(single == seq![ts_rule(ts)]);
        assert(single.drop_last() =~~= Seq::<Seq<char>>::empty());
        assert(count_rule_lines(Seq::<Seq<char>>::empty()) == 0);
        assert(count_content_blocks(Seq::<Seq<char>>::empty()) == 0);
        assert(count_rule_lines(single) == 1);
        assert(count_content_blocks(single) == 0);
    } else {
        lemma_table_counts_upto(ts, n - 1);
        let prev = table_lines_upto(ts, n - 1);
        let block = ts_row_lines(ts, n - 1);
        lemma_row_lines_shape(ts, n - 1);
        assert(!line_starts(prev.last(), '|'));
        lemma_count_append_content(prev, block);
        assert(prev + block + seq![ts_rule(ts)] =~~= (prev + block).push(ts_rule(ts)));
        lemma_count_append_rule(prev + block, ts_rule(ts));
        let all = table_lines_upto(ts, n);
        let total = ts.column_widths[0] + ts.column_widths[1] + ts.column_widths[2] + 4;
        assert forall|k: int| 0 <= k < all.len() implies (#[trigger] all[k] == ts_rule(ts)
            || line_starts(all[k], '|')) && all[k].len() == total by {
            if k < prev.len() {
                assert(all[k] == prev[k]);
            } else if k < prev.len() + block.len() {
                assert(all[k] == block[k - prev.len()]);
            } else {
                assert(all[k] == ts_rule(ts));
            }
        }
    }
}

/// Law: the rendered table holds exactly `row_count + 2` horizontal rule
/// lines and exactly `row_count + 1` bordered content blocks — the header
/// block plus one block per data row, each delimited above and below — and
/// every physical line is one or the other.
pub proof fn lemma_table_block_counts(ts: TableShape)
    requires
        ts.wf(),
    ensures
        count_rule_lines(table_lines(ts)) == ts.row_count + 2,
        count_content_blocks(table_lines(ts)) == ts.row_count + 1,
        forall|k: int|
            0 <= k < table_lines(ts).len() ==> (#[trigger] table_lines(ts)[k] == ts_rule(ts)
                || line_starts(table_lines(ts)[k], '|')),
{
    lemma_table_counts_upto(ts, ts.row_count as int + 1);
}

/// Law: wrapped cell text never overflows or falls short of the border —
/// every physical line of the rendered table, rule lines included, is
/// exactly as wide as the three columns plus their four border characters.
pub proof fn lemma_table_line_widths(ts: TableShape)
    requires
        ts.wf(),
    ensures
        forall|k: int|
            0 <= k < table_lines(ts).len() ==> (#[trigger] table_lines(ts)[k]).len()
                == ts.column_widths[0] + ts.column_widths[1] + ts.column_widths[2] + 4,
{
    lemma_table_counts_upto(ts, ts.row_count as int + 1);
}

/// At least one: a column is never narrower than one character.
pub open spec fn at_least_one(n: nat) -> nat {
    if n >= 1 {
        n
    } else {
        1
    }
}

/// The natural column widths of a plain table: each column exactly as wide
/// as its widest content line — the header's lines, and in the first column
/// also the row labels, whose widest is the last ordinal.
pub open spec fn plain_widths(headers: Seq<Seq<char>>, row_count: nat) -> Seq<nat>
    recommends
        headers.len() == 3,
{
    seq![
        at_least_one(max_nat(max_lines_len(split_lines(headers[0])), dec_rep(row_count).len())),
        at_least_one(max_lines_len(split_lines(headers[1]))),
        at_least_one(max_lines_len(split_lines(headers[2]))),
    ]
}

/// A plain, undecorated table: no label prefix, no extra height, left and
/// top alignment, and each column exactly as wide as its widest content
/// line, so nothing wraps.
pub fn plain_table_spec(headers: Vec<String>, row_count: usize) -> (r: TableSpec)
    requires
        headers@.len() == 3,
        1 <= row_count < usize::MAX,
        forall|j: int| 0 <= j < 3 ==> #[trigger] headers@[j]@.len() <= 0x1000_0000,
    ensures
        r@.wf(),
        r@.headers == views_of(headers@),
        r@.column_widths == plain_widths(views_of(headers@), row_count as nat),
        r@.row_count == row_count as nat,
        r@.label_prefix == Seq::<char>::empty(),
        r@.extra_height == 0,
        !r@.centered,
        forall|i: nat| 1 <= i <= row_count ==> dec_rep(i).len() <= r@.column_widths[0],
{
    let h0 = max_line_width(headers[0].as_str());
    let h1 = max_line_width(headers[1].as_str());
    let h2 = max_line_width(headers[2].as_str());
    let label = dec_string(row_count);
    let dl = label.as_str().unicode_len();
    proof {
        lemma_dec_len_usize(row_count);
        lemma_max_line_len(headers@[0]@);
        lemma_max_line_len(headers@[1]@);
        lemma_max_line_len(headers@[2]@);
    }
    let m0 = if h0 >= dl {
        h0
    } else {
        dl
    };
    let w0 = if m0 >= 1 {
        m0
    } else {
        1
    };
    let w1 = if h1 >= 1 {
        h1
    } else {
        1
    };
    let w2 = if h2 >= 1 {
        h2
    } else {
        1
    };
    let mut widths: Vec<usize> = Vec::new();
    widths.push(w0);
    widths.push(w1);
    widths.push(w2);
    let r = TableSpec {
        headers,
        column_widths: widths,
        row_count,
        label_prefix: String::new(),
        extra_height: 0,
        centered: false,
    };
    proof {
        assert(r@.column_widths =~~= plain_widths(views_of(r.headers@), row_count as nat));
        assert(r@.headers =~~= views_of(r.headers@));
        assert(r@.wf());
        assert forall|i: nat| 1 <= i <= row_count implies dec_rep(i).len()
            <= r@.column_widths[0] by {
            lemma_dec_len_monotone(i, row_count as nat);
        }
    }
    r
}

/// Law: rendering is deterministic — any two renderings of the same table
/// shape are byte-identical, so repeated builds agree byte for byte.
pub proof fn lemma_render_deterministic(ts: TableShape, r1: Seq<char>, r2: Seq<char>)
    requires
        r1 == spec_render_table(ts),
        r2 == spec_render_table(ts),
    ensures
        r1 == r2,
{
}

} // verus!
