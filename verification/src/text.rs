//! Character-sequence building blocks for the table renderer: character runs,
//! decimal labels, line splitting, soft wrapping, padding, and joining of
//! physical lines.

use vstd::prelude::*;
use vstd::string::*;

verus! {

/// `n` copies of the character `c`.
pub open spec fn repeat_char(c: char, n: nat) -> Seq<char> {
    Seq::new(n, |i: int| c)
}

/// The views of a sequence of owned strings.
pub open spec fn views_of(v: Seq<String>) -> Seq<Seq<char>> {
    v.map_values(|s: String| s@)
}

/// The character for a single decimal digit.
pub open spec fn digit_char(d: nat) -> char {
    if d == 0 {
        '0'
    } else if d == 1 {
        '1'
    } else if d == 2 {
        '2'
    } else if d == 3 {
        '3'
    } else if d == 4 {
        '4'
    } else if d == 5 {
        '5'
    } else if d == 6 {
        '6'
    } else if d == 7 {
        '7'
    } else if d == 8 {
        '8'
    } else {
        '9'
    }
}

/// The decimal representation of `n`, most significant digit first, without
/// leading zeros (except for `n == 0` itself).
pub open spec fn dec_rep(n: nat) -> Seq<char>
    decreases n,
{
    if n < 10 {
        seq![digit_char(n)]
    } else {
        dec_rep(n / 10).push(digit_char(n % 10))
    }
}

/// Powers of ten, used to bound the length of decimal representations.
pub open spec fn pow10(k: nat) -> nat
    decreases k,
{
    if k == 0 {
        1
    } else {
        10 * pow10((k - 1) as nat)
    }
}

/// A number below `10^k` has at most `k` decimal digits.
pub proof fn lemma_dec_len_bound(n: nat, k: nat)
    requires
        k >= 1,
        n < pow10(k),
    ensures
        dec_rep(n).len() <= k,
    decreases n,
{
    if n >= 10 {
        assert(pow10(k) == 10 * pow10((k - 1) as nat));
        assert(n / 10 < pow10((k - 1) as nat)) by {
            assert(n <= 10 * pow10((k - 1) as nat) - 1);
            assert(n / 10 <= (10 * pow10((k - 1) as nat) - 1) / 10) by {
                vstd::arithmetic::div_mod::lemma_div_is_ordered(
                    n as int,
                    10 * pow10((k - 1) as nat) - 1,
                    10,
                );
            }
            assert((10 * pow10((k - 1) as nat) - 1) / 10 == pow10((k - 1) as nat) - 1) by (
            nonlinear_arith);
        }
        assert(k >= 2) by {
            if k == 1 {
                assert(pow10(1) == 10);
            }
        }
        lemma_dec_len_bound(n / 10, (k - 1) as nat);
    }
}

/// Any `usize` value has at most 20 decimal digits.
pub proof fn lemma_dec_len_usize(n: usize)
    ensures
        dec_rep(n as nat).len() <= 20,
{
    assert(pow10(20) == 0x5_6bc7_5e2d_6310_0000) by {
        reveal_with_fuel(pow10, 21);
    }
    lemma_dec_len_bound(n as nat, 20);
}

/// Decimal length never shrinks as the number grows.
pub proof fn lemma_dec_len_monotone(n: nat, m: nat)
    requires
        n <= m,
    ensures
        dec_rep(n).len() <= dec_rep(m).len(),
    decreases m,
{
    if n >= 10 {
        vstd::arithmetic::div_mod::lemma_div_is_ordered(n as int, m as int, 10);
        lemma_dec_len_monotone(n / 10, m / 10);
    } else if m >= 10 {
        assert(dec_rep(m).len() == dec_rep(m / 10).len() + 1);
    }
}

/// A `String` holding `n` copies of the single character of `unit`.
pub fn char_run(unit: &str, n: usize) -> (r: String)
    requires
        unit@.len() == 1,
    ensures
        r@ == repeat_char(unit@[0], n as nat),
{
    let mut out = String::new();
    let mut i: usize = 0;
    proof {
        assert(out@ =~= repeat_char(unit@[0], 0));
    }
    while i < n
        invariant
            i <= n,
            unit@.len() == 1,
            out@ == repeat_char(unit@[0], i as nat),
        decreases n - i,
    {
        out.append(unit);
        i = i + 1;
        proof {
            assert(out@ =~= repeat_char(unit@[0], i as nat));
        }
    }
    out
}

/// A one-character string for a single decimal digit.
fn digit_str(d: usize) -> (r: &'static str)
    requires
        d < 10,
    ensures
        r@ == seq![digit_char(d as nat)],
{
    proof {
        reveal_strlit("0");
        reveal_strlit("1");
        reveal_strlit("2");
        reveal_strlit("3");
        reveal_strlit("4");
        reveal_strlit("5");
        reveal_strlit("6");
        reveal_strlit("7");
        reveal_strlit("8");
        reveal_strlit("9");
    }
    let r: &'static str = if d == 0 {
        "0"
    } else if d == 1 {
        "1"
    } else if d == 2 {
        "2"
    } else if d == 3 {
        "3"
    } else if d == 4 {
        "4"
    } else if d == 5 {
        "5"
    } else if d == 6 {
        "6"
    } else if d == 7 {
        "7"
    } else if d == 8 {
        "8"
    } else {
        "9"
    };
    proof {
        assert(r@ =~= seq![digit_char(d as nat)]);
    }
    r
}

/// The decimal representation of `n` as a `String`.
pub fn dec_string(n: usize) -> (r: String)
    ensures
        r@ == dec_rep(n as nat),
    decreases n,
{
    if n < 10 {
        String::from_str(digit_str(n))
    } else {
        let mut s = dec_string(n / 10);
        s.append(digit_str(n % 10));
        proof {
            assert(s@ =~= dec_rep((n / 10) as nat).push(digit_char((n % 10) as nat)));
        }
        s
    }
}

/// The logical lines of `s`, split at `'\n'`. The empty text has one empty
/// line; a trailing `'\n'` produces a final empty line.
pub open spec fn split_lines(s: Seq<char>) -> Seq<Seq<char>>
    decreases s.len(),
{
    if s.len() == 0 {
        seq![Seq::<char>::empty()]
    } else if s[0] == '\n' {
        seq![Seq::<char>::empty()] + split_lines(s.skip(1))
    } else {
        let rest = split_lines(s.skip(1));
        seq![seq![s[0]] + rest[0]] + rest.skip(1)
    }
}

/// `L` with `p` prepended to its first element.
pub open spec fn prepend_first(p: Seq<char>, lines: Seq<Seq<char>>) -> Seq<Seq<char>>
    recommends
        lines.len() >= 1,
{
    seq![p + lines[0]] + lines.skip(1)
}

/// A single logical line soft-broken into pieces of at most `w` characters;
/// every piece but the last has exactly `w`.
pub open spec fn chunk_line(line: Seq<char>, w: nat) -> Seq<Seq<char>>
    recommends
        w >= 1,
    decreases line.len(),
{
    if line.len() <= w || w == 0 {
        seq![line]
    } else {
        seq![line.take(w as int)] + chunk_line(line.skip(w as int), w)
    }
}

/// All logical lines wrapped at width `w`, in order.
pub open spec fn wrap_all(lines: Seq<Seq<char>>, w: nat) -> Seq<Seq<char>>
    decreases lines.len(),
{
    if lines.len() == 0 {
        Seq::<Seq<char>>::empty()
    } else {
        chunk_line(lines[0], w) + wrap_all(lines.skip(1), w)
    }
}

/// The physical lines a cell's text occupies at column width `w`.
pub open spec fn cell_lines(text: Seq<char>, w: nat) -> Seq<Seq<char>> {
    wrap_all(split_lines(text), w)
}

/// Every piece a line is wrapped into fits in the column width.
pub proof fn lemma_chunk_elems(line: Seq<char>, w: nat)
    requires
        w >= 1,
    ensures
        chunk_line(line, w).len() >= 1,
        forall|i: int|
            0 <= i < chunk_line(line, w).len() ==> (#[trigger] chunk_line(line, w)[i]).len() <= w,
    decreases line.len(),
{
    if line.len() > w {
        lemma_chunk_elems(line.skip(w as int), w);
    }
}

/// A nonempty line wraps into at most as many pieces as it has characters.
pub proof fn lemma_chunk_count(line: Seq<char>, w: nat)
    requires
        w >= 1,
    ensures
        line.len() == 0 ==> chunk_line(line, w).len() == 1,
        line.len() >= 1 ==> chunk_line(line, w).len() <= line.len(),
    decreases line.len(),
{
    if line.len() > w {
        lemma_chunk_count(line.skip(w as int), w);
    }
}

/// Wrapped pieces of all lines fit in the column width.
pub proof fn lemma_wrap_all_elems(lines: Seq<Seq<char>>, w: nat)
    requires
        w >= 1,
    ensures
        wrap_all(lines, w).len() >= lines.len(),
        forall|i: int|
            0 <= i < wrap_all(lines, w).len() ==> (#[trigger] wrap_all(lines, w)[i]).len() <= w,
    decreases lines.len(),
{
    if lines.len() > 0 {
        lemma_chunk_elems(lines[0], w);
        lemma_wrap_all_elems(lines.skip(1), w);
    }
}

/// Prepending one character to the first line adds at most one wrapped piece.
proof fn lemma_chunk_cons(c: char, line: Seq<char>, w: nat)
    requires
        w >= 1,
    ensures
        chunk_line(seq![c] + line, w).len() <= chunk_line(line, w).len() + 1,
    decreases line.len(),
{
    let ext = seq![c] + line;
    if ext.len() <= w {
        lemma_chunk_elems(line, w);
        assert(chunk_line(ext, w) == seq![ext]);
        assert(chunk_line(ext, w).len() == 1);
    } else {
        assert(ext.len() == line.len() + 1);
        assert(chunk_line(ext, w) == seq![ext.take(w as int)] + chunk_line(ext.skip(w as int), w));
        assert(ext.skip(w as int) =~= line.skip(w as int - 1));
        if line.len() <= w {
            assert(line.len() == w);
            assert(line.skip(w as int - 1).len() == 1);
            assert(chunk_line(line.skip(w as int - 1), w) == seq![line.skip(w as int - 1)]);
            assert(chunk_line(line, w) == seq![line]);
            assert(chunk_line(ext, w).len() == 2);
        } else {
            assert(chunk_line(line, w) == seq![line.take(w as int)] + chunk_line(
                line.skip(w as int),
                w,
            ));
            assert(seq![line[w as int - 1]] + line.skip(w as int) =~= line.skip(w as int - 1));
            lemma_chunk_cons(line[w as int - 1], line.skip(w as int), w);
            assert(chunk_line(line.skip(w as int - 1), w).len() <= chunk_line(
                line.skip(w as int),
                w,
            ).len() + 1);
        }
    }
}

/// A cell's text of length `n` occupies at most `n + 1` physical lines.
pub proof fn lemma_cell_height(text: Seq<char>, w: nat)
    requires
        w >= 1,
    ensures
        1 <= cell_lines(text, w).len() <= text.len() + 1,
    decreases text.len(),
{
    lemma_wrap_all_elems(split_lines(text), w);
    if text.len() == 0 {
        let sl = split_lines(text);
        assert(sl == seq![Seq::<char>::empty()]);
        assert(sl.skip(1) =~= Seq::<Seq<char>>::empty());
        assert(wrap_all(sl, w) == chunk_line(sl[0], w) + wrap_all(sl.skip(1), w));
        assert(wrap_all(sl.skip(1), w) == Seq::<Seq<char>>::empty());
        assert(chunk_line(sl[0], w) == seq![sl[0]]);
        assert(cell_lines(text, w).len() == 1);
    } else if text[0] == '\n' {
        lemma_cell_height(text.skip(1), w);
        assert(split_lines(text).skip(1) =~= split_lines(text.skip(1)));
    } else {
        lemma_cell_height(text.skip(1), w);
        let rest = split_lines(text.skip(1));
        assert(split_lines(text) == seq![seq![text[0]] + rest[0]] + rest.skip(1));
        assert(split_lines(text).skip(1) =~= rest.skip(1));
        assert(wrap_all(split_lines(text), w) == chunk_line(seq![text[0]] + rest[0], w) + wrap_all(
            rest.skip(1),
            w,
        ));
        assert(wrap_all(rest, w) == chunk_line(rest[0], w) + wrap_all(rest.skip(1), w)) by {
            assert(rest.len() >= 1);
        }
        lemma_chunk_cons(text[0], rest[0], w);
    }
}

/// Pushing a string onto a vector pushes its view onto the views.
pub proof fn lemma_views_push(v: Seq<String>, x: String)
    ensures
        views_of(v.push(x)) == views_of(v).push(x@),
{
    assert(views_of(v.push(x)) =~= views_of(v).push(x@));
}

/// The logical lines of `s`, as owned strings.
pub fn split_into_lines(s: &str) -> (r: Vec<String>)
    ensures
        views_of(r@) == split_lines(s@),
{
    let len = s.unicode_len();
    let mut acc: Vec<String> = Vec::new();
    let mut start: usize = 0;
    let mut i: usize = 0;
    proof {
        assert(s@.skip(0) =~= s@);
        assert(s@.subrange(0, 0) =~= Seq::<char>::empty());
        assert(split_lines(s@) =~~= views_of(acc@) + prepend_first(
            s@.subrange(start as int, i as int),
            split_lines(s@.skip(i as int)),
        ));
    }
    while i < len
        invariant
            start <= i <= len,
            len == s@.len(),
            split_lines(s@) =~~= views_of(acc@) + prepend_first(
                s@.subrange(start as int, i as int),
                split_lines(s@.skip(i as int)),
            ),
        decreases len - i,
    {
        let ghost tail = s@.skip(i as int);
        let ghost cur = s@.subrange(start as int, i as int);
        proof {
            assert(tail.len() >= 1);
            assert(tail[0] == s@[i as int]);
            assert(tail.skip(1) =~= s@.skip(i as int + 1));
        }
        let c = s.get_char(i);
        if c == '\n' {
            let piece = s.substring_char(start, i);
            acc.push(String::from_str(piece));
            proof {
                let next = split_lines(s@.skip(i as int + 1));
                assert(split_lines(tail) == seq![Seq::<char>::empty()] + next);
                assert(prepend_first(cur, split_lines(tail)) =~~= seq![cur] + next);
                assert(next.len() >= 1);
                assert(prepend_first(Seq::<char>::empty(), next) =~~= next);
                lemma_views_push(acc@.drop_last(), acc@.last());
                assert(views_of(acc@) =~~= views_of(acc@.drop_last()).push(cur));
                assert(s@.subrange(i as int + 1, i as int + 1) =~= Seq::<char>::empty());
            }
            start = i + 1;
        } else {
            proof {
                let next = split_lines(s@.skip(i as int + 1));
                assert(split_lines(tail) == seq![seq![tail[0]] + next[0]] + next.skip(1));
                assert(next.len() >= 1);
                assert(prepend_first(cur, split_lines(tail)) =~~= seq![cur + seq![tail[0]]
                    + next[0]] + next.skip(1));
                assert(cur + seq![tail[0]] =~= s@.subrange(start as int, i as int + 1));
                assert(prepend_first(s@.subrange(start as int, i as int + 1), next) =~~= seq![
                    s@.subrange(start as int, i as int + 1) + next[0]] + next.skip(1));
            }
        }
        i = i + 1;
    }
    let piece = s.substring_char(start, len);
    acc.push(String::from_str(piece));
    proof {
        assert(s@.skip(len as int) =~= Seq::<char>::empty());
        assert(split_lines(Seq::<char>::empty()) == seq![Seq::<char>::empty()]);
        let cur = s@.subrange(start as int, len as int);
        assert(prepend_first(cur, seq![Seq::<char>::empty()]) =~~= seq![cur]) by {
            assert(cur + Seq::<char>::empty() =~= cur);
            assert(seq![cur + Seq::<char>::empty()].skip(0) =~= seq![cur + Seq::<char>::empty()]);
            assert(seq![Seq::<char>::empty()].skip(1) =~= Seq::<Seq<char>>::empty());
        }
        lemma_views_push(acc@.drop_last(), acc@.last());
        assert(views_of(acc@) =~~= views_of(acc@.drop_last()).push(cur));
        assert(views_of(acc@) =~~= split_lines(s@));
    }
    acc
}

/// One logical line wrapped into pieces of at most `w` characters.
pub fn line_chunks(line: &str, w: usize) -> (r: Vec<String>)
    requires
        w >= 1,
    ensures
        views_of(r@) == chunk_line(line@, w as nat),
{
    let len = line.unicode_len();
    let mut acc: Vec<String> = Vec::new();
    let mut k: usize = 0;
    proof {
        assert(line@.skip(0) =~= line@);
    }
    while len - k > w
        invariant
            k <= len,
            len == line@.len(),
            w >= 1,
            chunk_line(line@, w as nat) =~~= views_of(acc@) + chunk_line(
                line@.skip(k as int),
                w as nat,
            ),
        decreases len - k,
    {
        let ghost tail = line@.skip(k as int);
        let piece = line.substring_char(k, k + w);
        acc.push(String::from_str(piece));
        proof {
            assert(tail.take(w as int) =~= line@.subrange(k as int, k as int + w));
            assert(tail.skip(w as int) =~= line@.skip(k as int + w));
            lemma_views_push(acc@.drop_last(), acc@.last());
        }
        k = k + w;
    }
    let piece = line.substring_char(k, len);
    acc.push(String::from_str(piece));
    proof {
        let tail = line@.skip(k as int);
        assert(tail.len() <= w);
        assert(chunk_line(tail, w as nat) == seq![tail]);
        assert(tail =~= line@.subrange(k as int, len as int));
        lemma_views_push(acc@.drop_last(), acc@.last());
        assert(views_of(acc@) =~~= chunk_line(line@, w as nat));
    }
    acc
}

/// The physical lines of a cell's text at column width `w`, unpadded.
pub fn wrap_text(text: &str, w: usize) -> (r: Vec<String>)
    requires
        w >= 1,
    ensures
        views_of(r@) == cell_lines(text@, w as nat),
{
    let logical = split_into_lines(text);
    let mut out: Vec<String> = Vec::new();
    let mut i: usize = 0;
    proof {
        assert(views_of(logical@).skip(0) =~= views_of(logical@));
    }
    while i < logical.len()
        invariant
            i <= logical.len(),
            w >= 1,
            views_of(logical@) == split_lines(text@),
            cell_lines(text@, w as nat) =~~= views_of(out@) + wrap_all(
                views_of(logical@).skip(i as int),
                w as nat,
            ),
        decreases logical.len() - i,
    {
        let ghost pre = views_of(out@);
        let ghost rest = views_of(logical@).skip(i as int);
        let mut chunks = line_chunks(logical[i].as_str(), w);
        proof {
            assert(rest.len() >= 1);
            assert(rest[0] == logical@[i as int]@);
            assert(rest.skip(1) =~= views_of(logical@).skip(i as int + 1));
            assert(wrap_all(rest, w as nat) == chunk_line(rest[0], w as nat) + wrap_all(
                rest.skip(1),
                w as nat,
            ));
        }
        let ghost chunk_views = views_of(chunks@);
        out.append(&mut chunks);
        proof {
            assert(views_of(out@) =~~= pre + chunk_views);
        }
        i = i + 1;
    }
    proof {
        assert(views_of(logical@).skip(logical@.len() as int) =~= Seq::<Seq<char>>::empty());
        assert(views_of(out@) =~~= cell_lines(text@, w as nat));
    }
    out
}

/// A line padded with spaces to exactly width `w`: centered, or left-aligned.
pub open spec fn pad_line_spec(l: Seq<char>, w: nat, centered: bool) -> Seq<char>
    recommends
        l.len() <= w,
{
    if centered {
        let lp = ((w - l.len()) as nat) / 2;
        repeat_char(' ', lp) + l + repeat_char(' ', ((w - l.len()) as nat - lp) as nat)
    } else {
        l + repeat_char(' ', (w - l.len()) as nat)
    }
}

/// Pads `line` with spaces to exactly `w` characters.
pub fn pad_line(line: &str, w: usize, centered: bool) -> (r: String)
    requires
        line@.len() <= w,
    ensures
        r@ == pad_line_spec(line@, w as nat, centered),
{
    let len = line.unicode_len();
    proof {
        reveal_strlit(" ");
    }
    if centered {
        let lp: usize = (w - len) / 2;
        let mut out = char_run(" ", lp);
        out.append(line);
        let right = char_run(" ", w - len - lp);
        out.append(right.as_str());
        proof {
            assert(out@ =~= pad_line_spec(line@, w as nat, true));
        }
        out
    } else {
        let mut out = String::from_str(line);
        let sp = char_run(" ", w - len);
        out.append(sp.as_str());
        proof {
            assert(out@ =~= pad_line_spec(line@, w as nat, false));
        }
        out
    }
}

/// What follows the first physical line when lines are joined: a `'\n'`
/// before each further line.
pub open spec fn join_rest(lines: Seq<Seq<char>>) -> Seq<char>
    decreases lines.len(),
{
    if lines.len() == 0 {
        Seq::<char>::empty()
    } else {
        seq!['\n'] + lines[0] + join_rest(lines.skip(1))
    }
}

/// Physical lines joined with single `'\n'` separators, no trailing break.
pub open spec fn join_lines(lines: Seq<Seq<char>>) -> Seq<char> {
    if lines.len() == 0 {
        Seq::<char>::empty()
    } else {
        lines[0] + join_rest(lines.skip(1))
    }
}

/// Joins the lines with `'\n'` separators into one `String`.
pub fn join_with_newlines(lines: &Vec<String>) -> (r: String)
    ensures
        r@ == join_lines(views_of(lines@)),
{
    if lines.len() == 0 {
        let out = String::new();
        proof {
            assert(out@ =~= join_lines(views_of(lines@)));
        }
        return out;
    }
    let ghost all = views_of(lines@);
    let mut out = lines[0].clone();
    let mut i: usize = 1;
    proof {
        reveal_strlit("\n");
        assert(out@ + join_rest(all.skip(1)) == join_lines(all));
    }
    while i < lines.len()
        invariant
            1 <= i <= lines@.len(),
            all == views_of(lines@),
            out@ + join_rest(all.skip(i as int)) == join_lines(all),
        decreases lines@.len() - i,
    {
        let ghost pre = out@;
        let ghost rest = all.skip(i as int);
        out.append("\n");
        out.append(lines[i].as_str());
        proof {
            reveal_strlit("\n");
            assert(rest.len() >= 1);
            assert(rest[0] == all[i as int]);
            assert(rest.skip(1) =~= all.skip(i as int + 1));
            assert(join_rest(rest) == seq!['\n'] + rest[0] + join_rest(rest.skip(1)));
            assert("\n"@ =~= seq!['\n']);
            assert(out@ =~= pre + seq!['\n'] + all[i as int]);
            assert(pre + seq!['\n'] + all[i as int] + join_rest(all.skip(i as int + 1)) =~= pre
                + join_rest(rest));
        }
        i = i + 1;
    }
    proof {
        assert(all.skip(lines@.len() as int) =~= Seq::<Seq<char>>::empty());
        assert(out@ =~= out@ + join_rest(all.skip(lines@.len() as int)));
    }
    out
}

/// The larger of two lengths.
pub open spec fn max_nat(a: nat, b: nat) -> nat {
    if a >= b {
        a
    } else {
        b
    }
}

/// The length of the longest line in a sequence of lines.
pub open spec fn max_lines_len(lines: Seq<Seq<char>>) -> nat
    decreases lines.len(),
{
    if lines.len() == 0 {
        0
    } else {
        max_nat(lines[0].len(), max_lines_len(lines.skip(1)))
    }
}

/// No logical line is longer than the whole text.
pub proof fn lemma_max_line_len(s: Seq<char>)
    ensures
        max_lines_len(split_lines(s)) <= s.len(),
    decreases s.len(),
{
    if s.len() == 0 {
        assert(seq![Seq::<char>::empty()].skip(1) =~= Seq::<Seq<char>>::empty());
        assert(max_lines_len(Seq::<Seq<char>>::empty()) == 0);
        assert(max_lines_len(split_lines(s)) == max_nat(
            0,
            max_lines_len(split_lines(s).skip(1)),
        ));
    } else if s[0] == '\n' {
        lemma_max_line_len(s.skip(1));
        assert(split_lines(s).skip(1) =~= split_lines(s.skip(1)));
        assert(split_lines(s)[0] == Seq::<char>::empty());
    } else {
        lemma_max_line_len(s.skip(1));
        let rest = split_lines(s.skip(1));
        assert(split_lines(s) == seq![seq![s[0]] + rest[0]] + rest.skip(1));
        assert(split_lines(s).skip(1) =~= rest.skip(1));
        assert(split_lines(s)[0] == seq![s[0]] + rest[0]);
        assert(max_lines_len(rest) == max_nat(rest[0].len(), max_lines_len(rest.skip(1))));
        assert(rest[0].len() <= s.len() - 1);
        assert(max_lines_len(rest.skip(1)) <= s.len() - 1);
    }
}

/// The length of the longest logical line of `s`.
pub fn max_line_width(s: &str) -> (r: usize)
    ensures
        r as nat == max_lines_len(split_lines(s@)),
{
    let lines = split_into_lines(s);
    let ghost all = views_of(lines@);
    let mut best: usize = 0;
    let mut i: usize = 0;
    proof {
        assert(all.skip(0) =~= all);
    }
    while i < lines.len()
        invariant
            i <= lines@.len(),
            all == views_of(lines@),
            all == split_lines(s@),
            max_nat(best as nat, max_lines_len(all.skip(i as int))) == max_lines_len(all),
        decreases lines@.len() - i,
    {
        let ghost rest = all.skip(i as int);
        let len = lines[i].as_str().unicode_len();
        proof {
            assert(rest.len() >= 1);
            assert(rest[0] == all[i as int]);
            assert(rest.skip(1) =~= all.skip(i as int + 1));
            assert(max_lines_len(rest) == max_nat(rest[0].len(), max_lines_len(rest.skip(1))));
        }
        if len > best {
            best = len;
        }
        i = i + 1;
    }
    proof {
        assert(all.skip(lines@.len() as int) =~= Seq::<Seq<char>>::empty());
    }
    best
}

} // verus!
