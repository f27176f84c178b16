//! Comparison and normalisation of short texts.

use vstd::prelude::*;
use vstd::string::{StringExecFns, StringSliceAdditionalSpecFns};

verus! {

/// Whether `a` and `b` hold the same characters, compared byte by byte.
pub fn str_eq(a: &str, b: &str) -> (r: bool)
    ensures
        r == (a@ == b@),
{
    let x = a.as_bytes();
    let y = b.as_bytes();
    proof {
        vstd::utf8::encode_utf8_decode_utf8(a@);
        vstd::utf8::encode_utf8_decode_utf8(b@);
    }
    if x.len() != y.len() {
        return false;
    }
    let mut i: usize = 0;
    while i < x.len()
        invariant
            i <= x.len(),
            x.len() == y.len(),
            x@ == a.spec_bytes(),
            y@ == b.spec_bytes(),
            forall|t: int| 0 <= t < i ==> x@[t] == y@[t],
        decreases x.len() - i,
    {
        if x[i] != y[i] {
            return false;
        }
        i = i + 1;
    }
    proof {
        assert(x@ =~= y@);
    }
    true
}


/// `c` has Unicode's `White_Space` property, which `char::is_whitespace`
/// tests: tab to carriage return, space, next line, no-break space, ogham
/// space mark, en quad to hair space, line and paragraph separators, narrow
/// no-break space, medium mathematical space and ideographic space.
pub open spec fn is_white_space(c: char) -> bool {
    let u = c as u32;
    ||| 0x09 <= u <= 0x0D
    ||| u == 0x20
    ||| u == 0x85
    ||| u == 0xA0
    ||| u == 0x1680
    ||| 0x2000 <= u <= 0x200A
    ||| u == 0x2028
    ||| u == 0x2029
    ||| u == 0x202F
    ||| u == 0x205F
    ||| u == 0x3000
}

/// `s` without its leading whitespace.
pub open spec fn trimmed_start(s: Seq<char>) -> Seq<char>
    decreases s.len(),
{
    if s.len() > 0 && is_white_space(s[0]) {
        trimmed_start(s.drop_first())
    } else {
        s
    }
}

/// `s` without its trailing whitespace.
pub open spec fn trimmed_end(s: Seq<char>) -> Seq<char>
    decreases s.len(),
{
    if s.len() > 0 && is_white_space(s.last()) {
        trimmed_end(s.drop_last())
    } else {
        s
    }
}

/// What `str::trim` leaves of the characters `s`: `s` without its longest
/// whitespace prefix and suffix.
pub open spec fn trimmed(s: Seq<char>) -> Seq<char> {
    trimmed_end(trimmed_start(s))
}

/// `c` with the ASCII letters `A` to `Z` mapped to `a` to `z`.
pub open spec fn ascii_lower(c: char) -> char {
    if 'A' <= c <= 'Z' {
        ((c as u32) + 32) as char
    } else {
        c
    }
}

/// Calls `str::trim`, which removes leading and trailing whitespace, the
/// characters with Unicode's `White_Space` property: the contract states the
/// result as `trimmed(s@)`.
#[verifier::external_body]
pub(crate) fn trim(s: &str) -> (r: &str)
    ensures
        r@ == trimmed(s@),
{
    s.trim()
}

/// Calls `str::to_ascii_lowercase`, which maps each ASCII upper-case letter
/// to its lower-case letter and leaves every other character as it is.
#[verifier::external_body]
pub(crate) fn to_ascii_lowercase(s: &str) -> (r: String)
    ensures
        r@ == s@.map_values(|c: char| ascii_lower(c)),
{
    s.to_ascii_lowercase()
}

// ---------- Truncated listings of matrices and vectors ----------


/// How many leading and how many trailing rows, columns or elements a
/// truncated listing shows.
pub const EDGE_ITEMS: usize = 2;

/// The positions a listing of `len` items shows, and whether it leaves some
/// out: all of them while `len` is at most `2 * EDGE_ITEMS`, else the first
/// and the last `EDGE_ITEMS`.
pub fn visible_indices(len: usize) -> (r: (Vec<usize>, bool))
    ensures
        r.1 == (len > 2 * EDGE_ITEMS),
        !r.1 ==> r.0@ == Seq::new(len as nat, |k: int| k as usize),
        r.1 ==> r.0@ == seq![0usize, 1usize, (len - 2) as usize, (len - 1) as usize],
{
    if len <= EDGE_ITEMS * 2 {
        let mut indices: Vec<usize> = Vec::new();
        let mut k: usize = 0;
        while k < len
            invariant
                k <= len,
                indices@ == Seq::new(k as nat, |t: int| t as usize),
            decreases len - k,
        {
            indices.push(k);
            k = k + 1;
        }
        (indices, false)
    } else {
        let mut indices: Vec<usize> = Vec::new();
        let mut k: usize = 0;
        while k < EDGE_ITEMS
            invariant
                k <= EDGE_ITEMS,
                indices@ == Seq::new(k as nat, |t: int| t as usize),
            decreases EDGE_ITEMS - k,
        {
            indices.push(k);
            k = k + 1;
        }
        let mut k: usize = len - EDGE_ITEMS;
        while k < len
            invariant
                len - EDGE_ITEMS <= k <= len,
                len > 2 * EDGE_ITEMS,
                indices@ == Seq::new(EDGE_ITEMS as nat, |t: int| t as usize) + Seq::new(
                    (k - (len - EDGE_ITEMS)) as nat,
                    |t: int| (t + len - EDGE_ITEMS) as usize,
                ),
            decreases len - k,
        {
            indices.push(k);
            k = k + 1;
        }
        assert(indices@ =~= seq![0usize, 1usize, (len - 2) as usize, (len - 1) as usize]);
        (indices, true)
    }
}

/// `items` joined with `sep` between consecutive items.
pub open spec fn joined(items: Seq<Seq<char>>, sep: Seq<char>) -> Seq<char>
    decreases items.len(),
{
    if items.len() == 0 {
        Seq::empty()
    } else if items.len() == 1 {
        items[0]
    } else {
        joined(items.drop_last(), sep) + sep + items.last()
    }
}

/// The items of a listed row: its cells, with `...` between the leading and
/// the trailing ones where the row is truncated.
pub open spec fn row_items(cells: Seq<Seq<char>>, truncated: bool) -> Seq<Seq<char>> {
    if truncated && cells.len() > EDGE_ITEMS {
        cells.take(EDGE_ITEMS as int).push("..."@) + cells.skip(EDGE_ITEMS as int)
    } else {
        cells
    }
}

/// The text of one listed row: its items between brackets, separated by
/// commas.
pub open spec fn row_text(cells: Seq<Seq<char>>, truncated: bool) -> Seq<char> {
    "["@ + joined(row_items(cells, truncated), ", "@) + "]"@
}

/// The line of the listed row at position `pos`: after the first, each row
/// starts a new line indented by one space, and a line ` ...` stands before
/// the row at position `EDGE_ITEMS` where rows are left out.
pub open spec fn grid_line(cells: Seq<Seq<char>>, pos: int, rows_truncated: bool, cols_truncated: bool) -> Seq<
    char,
> {
    if pos == 0 {
        row_text(cells, cols_truncated)
    } else {
        "\n"@ + (if rows_truncated && pos == EDGE_ITEMS {
            " ...\n"@
        } else {
            Seq::empty()
        }) + " "@ + row_text(cells, cols_truncated)
    }
}

/// The lines of the first `n` listed rows.
pub open spec fn grid_lines(rows: Seq<Seq<Seq<char>>>, rows_truncated: bool, cols_truncated: bool, n: int) -> Seq<
    char,
>
    decreases n,
{
    if n <= 0 {
        Seq::empty()
    } else {
        grid_lines(rows, rows_truncated, cols_truncated, n - 1) + grid_line(
            rows[n - 1],
            n - 1,
            rows_truncated,
            cols_truncated,
        )
    }
}

/// The text of a listed matrix: its rows' lines between brackets.
pub open spec fn grid_text(rows: Seq<Seq<Seq<char>>>, rows_truncated: bool, cols_truncated: bool) -> Seq<char> {
    "["@ + grid_lines(rows, rows_truncated, cols_truncated, rows.len() as int) + "]"@
}

/// Joining no items gives nothing, and joining one item gives that item.
pub proof fn lemma_joined_short(item: Seq<char>, sep: Seq<char>)
    ensures
        joined(Seq::<Seq<char>>::empty(), sep) == Seq::<char>::empty(),
        joined(seq![item], sep) == item,
{
}

/// Joining two non-empty runs of items is joining each and putting the
/// separator between.
pub proof fn lemma_joined_concat(a: Seq<Seq<char>>, b: Seq<Seq<char>>, sep: Seq<char>)
    requires
        a.len() > 0,
        b.len() > 0,
    ensures
        joined(a + b, sep) == joined(a, sep) + sep + joined(b, sep),
    decreases b.len(),
{
    if b.len() == 1 {
        assert((a + b).drop_last() =~= a);
        assert((a + b).last() == b[0]);
    } else {
        lemma_joined_concat(a, b.drop_last(), sep);
        assert((a + b).drop_last() =~= a + b.drop_last());
        assert((a + b).last() == b.last());
        let ja = joined(a, sep);
        let jb = joined(b.drop_last(), sep);
        assert(ja + sep + jb + sep + b.last() =~= ja + sep + (jb + sep + b.last()));
    }
}

/// A row listed in full shows its cells between brackets, separated by
/// commas.
pub proof fn lemma_row_text_all_cells(cells: Seq<Seq<char>>)
    ensures
        row_text(cells, false) == "["@ + joined(cells, ", "@) + "]"@,
{
}

/// A row that leaves cells out shows its leading `EDGE_ITEMS` cells, then
/// `...`, then the cells after them, between brackets, separated by commas.
pub proof fn lemma_row_text_cut_cells(cells: Seq<Seq<char>>)
    requires
        cells.len() > EDGE_ITEMS,
    ensures
        row_text(cells, true) == "["@ + joined(cells.take(EDGE_ITEMS as int), ", "@) + ", ..., "@ + joined(cells.skip(EDGE_ITEMS as int), ", "@) + "]"@,
{
    let e = EDGE_ITEMS as int;
    let head = cells.take(e);
    let tail = cells.skip(e);
    reveal_strlit(", ");
    reveal_strlit("...");
    reveal_strlit(", ..., ");
    lemma_joined_concat(head, seq!["..."@], ", "@);
    assert(head + seq!["..."@] =~= head.push("..."@));
    lemma_joined_concat(head.push("..."@), tail, ", "@);
    let jh = joined(head, ", "@);
    let jt = joined(tail, ", "@);
    assert(joined(seq!["..."@], ", "@) == "..."@);
    assert(", ..., "@ =~= ", "@ + "..."@ + ", "@);
    assert(jh + ", "@ + "..."@ + ", "@ + jt =~= jh + (", "@ + "..."@ + ", "@) + jt);
}


/// The texts of the rows `rows`, each listed with `cols_truncated`.
pub open spec fn row_texts(rows: Seq<Seq<Seq<char>>>, cols_truncated: bool) -> Seq<Seq<char>> {
    rows.map_values(|cells: Seq<Seq<char>>| row_text(cells, cols_truncated))
}

/// The lines of the first `n` rows where no row is left out are the first
/// `n` row texts joined by a line break and one space.
proof fn lemma_grid_lines_plain(rows: Seq<Seq<Seq<char>>>, cols_truncated: bool, n: int)
    requires
        0 <= n <= rows.len(),
    ensures
        grid_lines(rows, false, cols_truncated, n) == joined(row_texts(rows, cols_truncated).take(n), "\n "@),
    decreases n,
{
    let rt = row_texts(rows, cols_truncated);
    if n == 0 {
        assert(rt.take(0) =~= Seq::<Seq<char>>::empty());
    } else if n == 1 {
        assert(rt.take(1) =~= seq![rt[0]]);
        assert(grid_lines(rows, false, cols_truncated, 0) == Seq::<char>::empty());
        assert(grid_lines(rows, false, cols_truncated, 1) =~= row_text(rows[0], cols_truncated));
    } else {
        lemma_grid_lines_plain(rows, cols_truncated, n - 1);
        assert(rt[n - 1] == row_text(rows[n - 1], cols_truncated));
        assert(grid_lines(rows, false, cols_truncated, n) == grid_lines(rows, false, cols_truncated, n - 1)
            + grid_line(rows[n - 1], n - 1, false, cols_truncated));
        assert(rt.take(n).len() >= 2);
        assert(rt.take(n).last() == rt[n - 1]);
        reveal_strlit("\n");
        reveal_strlit(" ");
        reveal_strlit("\n ");
        assert(rt.take(n).drop_last() =~= rt.take(n - 1));
        assert(("\n"@ + Seq::<char>::empty()) + " "@ =~= "\n "@);
        let prev = grid_lines(rows, false, cols_truncated, n - 1);
        let line = rt[n - 1];
        assert(prev + ((("\n"@ + Seq::<char>::empty()) + " "@) + line) =~= prev + "\n "@ + line);
    }
}

/// A listing that leaves no row out shows every row text, one per line
/// after a line break and one space of indent, between brackets, and no
/// ` ...` line.
pub proof fn lemma_grid_text_all_rows(rows: Seq<Seq<Seq<char>>>, cols_truncated: bool)
    ensures
        grid_text(rows, false, cols_truncated) == "["@ + joined(row_texts(rows, cols_truncated), "\n "@) + "]"@,
{
    lemma_grid_lines_plain(rows, cols_truncated, rows.len() as int);
    assert(row_texts(rows, cols_truncated).take(rows.len() as int) =~= row_texts(rows, cols_truncated));
}

/// The lines of the first `n` rows, `n` past `EDGE_ITEMS`, of a listing that
/// leaves rows out: the leading row texts joined by line breaks, the line
/// ` ...`, then the other row texts joined by line breaks.
proof fn lemma_grid_lines_cut(rows: Seq<Seq<Seq<char>>>, cols_truncated: bool, n: int)
    requires
        EDGE_ITEMS < n <= rows.len(),
    ensures
        grid_lines(rows, true, cols_truncated, n) == joined(row_texts(rows, cols_truncated).take(EDGE_ITEMS as int), "\n "@)
            + "\n ...\n "@ + joined(row_texts(rows, cols_truncated).subrange(EDGE_ITEMS as int, n), "\n "@),
    decreases n,
{
    let rt = row_texts(rows, cols_truncated);
    let e = EDGE_ITEMS as int;
    reveal_strlit("\n");
    reveal_strlit(" ");
    reveal_strlit("\n ");
    reveal_strlit(" ...\n");
    reveal_strlit("\n ...\n ");
    if n == e + 1 {
        assert(grid_lines(rows, true, cols_truncated, 0) == grid_lines(rows, false, cols_truncated, 0));
        assert(grid_line(rows[0], 0, true, cols_truncated) == grid_line(rows[0], 0, false, cols_truncated));
        assert(grid_lines(rows, true, cols_truncated, 1) == grid_lines(rows, false, cols_truncated, 1));
        assert(grid_line(rows[1], 1, true, cols_truncated) == grid_line(rows[1], 1, false, cols_truncated));
        assert(grid_lines(rows, true, cols_truncated, 2) == grid_lines(rows, false, cols_truncated, 2));
        assert(rt[e] == row_text(rows[e], cols_truncated));
        assert(grid_lines(rows, true, cols_truncated, n) == grid_lines(rows, true, cols_truncated, e) + grid_line(
            rows[e],
            e,
            true,
            cols_truncated,
        ));
        lemma_grid_lines_plain(rows, cols_truncated, e);
        assert(rt.subrange(e, n) =~= seq![rt[e]]);
        let head = grid_lines(rows, true, cols_truncated, e);
        assert(("\n"@ + " ...\n"@) + " "@ =~= "\n ...\n "@);
        assert(head + ((("\n"@ + " ...\n"@) + " "@) + rt[e]) =~= head + "\n ...\n "@ + rt[e]);
    } else {
        lemma_grid_lines_cut(rows, cols_truncated, n - 1);
        assert(rt[n - 1] == row_text(rows[n - 1], cols_truncated));
        assert(grid_lines(rows, true, cols_truncated, n) == grid_lines(rows, true, cols_truncated, n - 1)
            + grid_line(rows[n - 1], n - 1, true, cols_truncated));
        assert(rt.subrange(e, n).last() == rt[n - 1]);
        assert(rt.subrange(e, n).drop_last() =~= rt.subrange(e, n - 1));
        assert(rt.subrange(e, n).len() >= 2);
        assert(("\n"@ + Seq::<char>::empty()) + " "@ =~= "\n "@);
        let head = joined(rt.take(e), "\n "@) + "\n ...\n "@;
        let mid = joined(rt.subrange(e, n - 1), "\n "@);
        let line = rt[n - 1];
        assert(head + mid + ((("\n"@ + Seq::<char>::empty()) + " "@) + line) =~= head + (mid + "\n "@ + line));
    }
}

/// A listing that leaves rows out shows the leading `EDGE_ITEMS` row texts,
/// then a line ` ...` for the rows left out, then the trailing row texts,
/// one per line, between brackets.
pub proof fn lemma_grid_text_cut_rows(rows: Seq<Seq<Seq<char>>>, cols_truncated: bool)
    requires
        rows.len() > EDGE_ITEMS,
    ensures
        grid_text(rows, true, cols_truncated) == "["@ + joined(
            row_texts(rows, cols_truncated).take(EDGE_ITEMS as int),
            "\n "@,
        ) + "\n ...\n "@ + joined(row_texts(rows, cols_truncated).skip(EDGE_ITEMS as int), "\n "@) + "]"@,
{
    lemma_grid_lines_cut(rows, cols_truncated, rows.len() as int);
    assert(row_texts(rows, cols_truncated).subrange(EDGE_ITEMS as int, rows.len() as int) =~= row_texts(
        rows,
        cols_truncated,
    ).skip(EDGE_ITEMS as int));
}


/// The characters of each text in `v`.
pub open spec fn texts(v: Seq<String>) -> Seq<Seq<char>> {
    v.map_values(|s: String| s@)
}


/// `items` joined with `sep` between consecutive items.
pub fn join_texts(items: &Vec<String>, sep: &str) -> (r: String)
    ensures
        r@ == joined(texts(items@), sep@),
{
    let mut r = String::new();
    let mut k: usize = 0;
    while k < items.len()
        invariant
            k <= items@.len(),
            r@ == joined(texts(items@).take(k as int), sep@),
        decreases items@.len() - k,
    {
        let ghost before = r@;
        if k > 0 {
            r.append(sep);
        }
        r.append(items[k].as_str());
        proof {
            let t = texts(items@);
            assert(t.take(k + 1).drop_last() =~= t.take(k as int));
            if k == 0 {
                assert(t.take(0) =~= Seq::<Seq<char>>::empty());
                assert(before =~= Seq::<char>::empty());
            }
        }
        k = k + 1;
    }
    proof {
        assert(texts(items@).take(items@.len() as int) =~= texts(items@));
    }
    r
}

/// The items of a listed row: `cells`, with `...` inserted after the leading
/// `EDGE_ITEMS` where the row is truncated.
fn row_items_of(cells: &Vec<String>, truncated: bool) -> (r: Vec<String>)
    ensures
        texts(r@) == row_items(texts(cells@), truncated),
{
    let mut r: Vec<String> = Vec::new();
    let mut k: usize = 0;
    let ghost t = texts(cells@);
    while k < cells.len()
        invariant
            k <= cells@.len(),
            t == texts(cells@),
            texts(r@) == row_items(t.take(k as int), truncated && k > EDGE_ITEMS),
        decreases cells@.len() - k,
    {
        let ghost before = texts(r@);
        if truncated && k == EDGE_ITEMS {
            r.push(String::from_str("..."));
        }
        r.push(cells[k].clone());
        proof {
            let tk = t.take(k as int);
            let tk1 = t.take(k + 1);
            assert(tk1 =~= tk.push(t[k as int]));
            if truncated && k == EDGE_ITEMS {
                assert(texts(r@) =~= before.push("..."@).push(t[k as int]));
                assert(tk1.take(EDGE_ITEMS as int) =~= tk);
                assert(tk1.skip(EDGE_ITEMS as int) =~= seq![t[k as int]]);
            } else if truncated && k > EDGE_ITEMS {
                assert(texts(r@) =~= before.push(t[k as int]));
                assert(tk1.take(EDGE_ITEMS as int) =~= tk.take(EDGE_ITEMS as int));
                assert(tk1.skip(EDGE_ITEMS as int) =~= tk.skip(EDGE_ITEMS as int).push(t[k as int]));
            } else {
                assert(texts(r@) =~= before.push(t[k as int]));
            }
            assert(texts(r@) =~= row_items(tk1, truncated && k + 1 > EDGE_ITEMS));
        }
        k = k + 1;
    }
    proof {
        assert(t.take(cells@.len() as int) =~= t);
    }
    r
}

/// The text of one listed row: `[a, b, ..., y, z]`, with `...` after the
/// leading `EDGE_ITEMS` cells where the row is truncated.
pub fn format_row(cells: &Vec<String>, truncated: bool) -> (r: String)
    ensures
        r@ == row_text(texts(cells@), truncated),
{
    let items = row_items_of(cells, truncated);
    let body = join_texts(&items, ", ");
    let mut r = String::from_str("[");
    r.append(body.as_str());
    r.append("]");
    r
}


/// The characters of each text of each row in `rows`.
pub open spec fn grid_texts(rows: Seq<Vec<String>>) -> Seq<Seq<Seq<char>>> {
    rows.map_values(|v: Vec<String>| texts(v@))
}

/// The text of a listed matrix from the texts of its shown cells, row by
/// row: `[[a, b], ...]` with one row per line, a line ` ...` before the row
/// at position `EDGE_ITEMS` where rows are left out, and `...` after the
/// leading `EDGE_ITEMS` cells of each row where columns are left out.
pub fn format_grid(rows: &Vec<Vec<String>>, rows_truncated: bool, cols_truncated: bool) -> (r: String)
    ensures
        r@ == grid_text(grid_texts(rows@), rows_truncated, cols_truncated),
{
    let ghost g = grid_texts(rows@);
    let mut r = String::from_str("[");
    let mut pos: usize = 0;
    while pos < rows.len()
        invariant
            pos <= rows@.len(),
            g == grid_texts(rows@),
            r@ == "["@ + grid_lines(g, rows_truncated, cols_truncated, pos as int),
        decreases rows@.len() - pos,
    {
        let ghost before = r@;
        if pos > 0 {
            r.append("\n");
            if rows_truncated && pos == EDGE_ITEMS {
                r.append(" ...\n");
            }
            r.append(" ");
        }
        let line = format_row(&rows[pos], cols_truncated);
        r.append(line.as_str());
        proof {
            assert(g[pos as int] == texts(rows@[pos as int]@));
            if pos > 0 {
                if rows_truncated && pos == EDGE_ITEMS {
                    assert(r@ =~= before + ("\n"@ + " ...\n"@ + " "@ + row_text(g[pos as int], cols_truncated)));
                } else {
                    assert(r@ =~= before + ("\n"@ + Seq::<char>::empty() + " "@ + row_text(g[pos as int], cols_truncated)));
                }
            }
            assert(r@ =~= "["@ + grid_lines(g, rows_truncated, cols_truncated, pos + 1));
        }
        pos = pos + 1;
    }
    r.append("]");
    r
}

} // verus!
