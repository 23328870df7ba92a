//! The piece table data structure and its verified operations.
//!
//! The document is the concatenation, in order, of the text each piece
//! denotes in its backing buffer.  All contracts are stated over that
//! mathematical view, a `Seq<char>`; offsets, lengths, and columns are
//! measured in characters.

use vstd::prelude::*;
use crate::piece_table::line::Info;
use crate::piece_table::TableError;
use crate::types::source::ID;
use crate::types::Position;
use crate::util::column_of;
use crate::util::count_line_breaks;
use crate::util::lemma_newline_count_concat;
use crate::util::lemma_newline_count_push;
use crate::util::line_of;
use crate::util::line_start;
use crate::util::newline_count;
use crate::util::next_newline;
use crate::util::position_offset;

verus! {

/// A contiguous run of text belonging to one backing buffer.
#[derive(Debug, Clone, Copy)]
pub struct Piece {
    /// Source buffer (original or add).
    pub source: ID,
    /// Start offset in the source buffer, in characters.
    pub start: usize,
    /// Length of the piece, in characters.
    pub length: usize,
    /// Number of line breaks in the piece.
    pub line_breaks: usize,
}

/// The backing buffer a source tag selects.
pub open spec fn buffer_of(orig: Seq<char>, addb: Seq<char>, src: ID) -> Seq<char> {
    match src {
        ID::Original => orig,
        ID::Add => addb,
    }
}

/// The text a piece denotes.
pub open spec fn piece_view(orig: Seq<char>, addb: Seq<char>, p: Piece) -> Seq<char> {
    buffer_of(orig, addb, p.source).subrange(p.start as int, p.start + p.length)
}

/// The piece's slice lies within its backing buffer.
pub open spec fn piece_in_bounds(orig: Seq<char>, addb: Seq<char>, p: Piece) -> bool {
    p.start + p.length <= buffer_of(orig, addb, p.source).len()
}

/// The piece is non-empty and its cached line-break count is the true one.
pub open spec fn piece_exact(orig: Seq<char>, addb: Seq<char>, p: Piece) -> bool {
    &&& p.length > 0
    &&& p.line_breaks == newline_count(piece_view(orig, addb, p))
}

/// Every piece lies within its buffer.
pub open spec fn pieces_bounded(orig: Seq<char>, addb: Seq<char>, ps: Seq<Piece>) -> bool {
    forall|i: int| 0 <= i < ps.len() ==> piece_in_bounds(orig, addb, #[trigger] ps[i])
}

/// Every piece lies within its buffer, is non-empty, and carries the true
/// line-break count.
pub open spec fn pieces_ok(orig: Seq<char>, addb: Seq<char>, ps: Seq<Piece>) -> bool {
    forall|i: int| 0 <= i < ps.len() ==> piece_in_bounds(orig, addb, #[trigger] ps[i])
        && piece_exact(orig, addb, ps[i])
}

/// Concatenation of the first `i` pieces' texts.
pub open spec fn cat_to(orig: Seq<char>, addb: Seq<char>, ps: Seq<Piece>, i: int) -> Seq<char>
    decreases i,
{
    if i <= 0 {
        Seq::empty()
    } else {
        cat_to(orig, addb, ps, i - 1) + piece_view(orig, addb, ps[i - 1])
    }
}

/// Concatenation of the pieces' texts from index `i` on.
pub open spec fn cat_from(orig: Seq<char>, addb: Seq<char>, ps: Seq<Piece>, i: int) -> Seq<char>
    decreases ps.len() - i,
{
    if i < 0 || i >= ps.len() {
        Seq::empty()
    } else {
        piece_view(orig, addb, ps[i]) + cat_from(orig, addb, ps, i + 1)
    }
}

/// The whole document text the pieces denote.
pub open spec fn table_text(orig: Seq<char>, addb: Seq<char>, ps: Seq<Piece>) -> Seq<char> {
    cat_to(orig, addb, ps, ps.len() as int)
}

/// Sum of the lengths of the first `i` pieces.
pub open spec fn prefix_len(ps: Seq<Piece>, i: int) -> int
    decreases i,
{
    if i <= 0 {
        0
    } else {
        prefix_len(ps, i - 1) + ps[i - 1].length
    }
}

/// The first `i` pieces concatenate to a text of length `prefix_len(i)`.
proof fn lemma_cat_to_len(orig: Seq<char>, addb: Seq<char>, ps: Seq<Piece>, i: int)
    requires
        pieces_bounded(orig, addb, ps),
        0 <= i <= ps.len(),
    ensures
        cat_to(orig, addb, ps, i).len() == prefix_len(ps, i),
    decreases i,
{
    if i > 0 {
        lemma_cat_to_len(orig, addb, ps, i - 1);
    }
}

/// Prefix sums are monotone.
proof fn lemma_prefix_len_mono(ps: Seq<Piece>, i: int, j: int)
    requires
        0 <= i <= j <= ps.len(),
        forall|k: int| 0 <= k < ps.len() ==> (#[trigger] ps[k]).length >= 0,
    ensures
        prefix_len(ps, i) <= prefix_len(ps, j),
    decreases j - i,
{
    if i < j {
        lemma_prefix_len_mono(ps, i, j - 1);
    }
}

/// With no empty pieces, at least `i` characters precede piece `i`.
proof fn lemma_prefix_len_at_least(ps: Seq<Piece>, i: int)
    requires
        0 <= i <= ps.len(),
        forall|k: int| 0 <= k < ps.len() ==> (#[trigger] ps[k]).length >= 1,
    ensures
        prefix_len(ps, i) >= i,
    decreases i,
{
    if i > 0 {
        lemma_prefix_len_at_least(ps, i - 1);
    }
}

/// Two piece lists that agree on the first `i` entries concatenate those
/// entries to the same text, and have the same prefix sums there.
proof fn lemma_cat_to_agrees(
    orig: Seq<char>,
    addb: Seq<char>,
    ps1: Seq<Piece>,
    ps2: Seq<Piece>,
    i: int,
)
    requires
        0 <= i <= ps1.len(),
        i <= ps2.len(),
        forall|j: int| 0 <= j < i ==> ps1[j] == ps2[j],
    ensures
        cat_to(orig, addb, ps1, i) == cat_to(orig, addb, ps2, i),
        prefix_len(ps1, i) == prefix_len(ps2, i),
    decreases i,
{
    if i > 0 {
        lemma_cat_to_agrees(orig, addb, ps1, ps2, i - 1);
    }
}

/// Two piece lists whose tails coincide after shifting by `d` concatenate
/// those tails to the same text.
proof fn lemma_cat_from_shift(
    orig: Seq<char>,
    addb: Seq<char>,
    ps1: Seq<Piece>,
    ps2: Seq<Piece>,
    i1: int,
    i2: int,
)
    requires
        0 <= i1 <= ps1.len(),
        0 <= i2 <= ps2.len(),
        ps1.len() - i1 == ps2.len() - i2,
        forall|j: int| 0 <= j < ps1.len() - i1 ==> #[trigger] ps1[i1 + j] == ps2[i2 + j],
    ensures
        cat_from(orig, addb, ps1, i1) == cat_from(orig, addb, ps2, i2),
    decreases ps1.len() - i1,
{
    if i1 < ps1.len() {
        assert(ps1[i1 + 0] == ps2[i2 + 0]);
        assert forall|j: int| 0 <= j < ps1.len() - (i1 + 1) implies #[trigger] ps1[i1 + 1 + j]
            == ps2[i2 + 1 + j] by {
            assert(ps1[i1 + (j + 1)] == ps2[i2 + (j + 1)]);
        }
        lemma_cat_from_shift(orig, addb, ps1, ps2, i1 + 1, i2 + 1);
    }
}

/// The document splits at any piece boundary: prefix concatenation plus
/// suffix concatenation.
proof fn lemma_cat_split(orig: Seq<char>, addb: Seq<char>, ps: Seq<Piece>, i: int)
    requires
        0 <= i <= ps.len(),
    ensures
        table_text(orig, addb, ps) == cat_to(orig, addb, ps, i) + cat_from(orig, addb, ps, i),
    decreases ps.len() - i,
{
    if i == ps.len() {
        assert(cat_to(orig, addb, ps, i) + cat_from(orig, addb, ps, i) =~= table_text(
            orig,
            addb,
            ps,
        ));
    } else {
        lemma_cat_split(orig, addb, ps, i + 1);
        assert(cat_to(orig, addb, ps, i + 1) == cat_to(orig, addb, ps, i) + piece_view(
            orig,
            addb,
            ps[i],
        ));
        assert(cat_to(orig, addb, ps, i) + (piece_view(orig, addb, ps[i]) + cat_from(
            orig,
            addb,
            ps,
            i + 1,
        )) =~= (cat_to(orig, addb, ps, i) + piece_view(orig, addb, ps[i])) + cat_from(
            orig,
            addb,
            ps,
            i + 1,
        ));
    }
}

/// Inserting a piece at index `k` splices its text between the prefix and
/// the suffix of the old document.
proof fn lemma_text_insert(orig: Seq<char>, addb: Seq<char>, ps: Seq<Piece>, k: int, q: Piece)
    requires
        0 <= k <= ps.len(),
    ensures
        table_text(orig, addb, ps.insert(k, q)) == cat_to(orig, addb, ps, k) + piece_view(
            orig,
            addb,
            q,
        ) + cat_from(orig, addb, ps, k),
{
    let ps2 = ps.insert(k, q);
    lemma_cat_split(orig, addb, ps2, k + 1);
    assert(forall|j: int| 0 <= j < k ==> ps[j] == ps2[j]);
    lemma_cat_to_agrees(orig, addb, ps2, ps, k);
    assert(cat_to(orig, addb, ps2, k + 1) == cat_to(orig, addb, ps2, k) + piece_view(
        orig,
        addb,
        ps2[k],
    ));
    assert(ps2[k] == q);
    assert(forall|j: int| 0 <= j < ps.len() - k ==> #[trigger] ps2[k + 1 + j] == ps[k + j]);
    lemma_cat_from_shift(orig, addb, ps2, ps, k + 1, k);
    assert((cat_to(orig, addb, ps, k) + piece_view(orig, addb, q)) + cat_from(orig, addb, ps, k)
        =~= cat_to(orig, addb, ps, k) + piece_view(orig, addb, q) + cat_from(orig, addb, ps, k));
}

/// Replacing the piece at index `k` replaces exactly its text.
proof fn lemma_text_update(orig: Seq<char>, addb: Seq<char>, ps: Seq<Piece>, k: int, q: Piece)
    requires
        0 <= k < ps.len(),
    ensures
        table_text(orig, addb, ps.update(k, q)) == cat_to(orig, addb, ps, k) + piece_view(
            orig,
            addb,
            q,
        ) + cat_from(orig, addb, ps, k + 1),
{
    let ps2 = ps.update(k, q);
    lemma_cat_split(orig, addb, ps2, k + 1);
    lemma_cat_to_agrees(orig, addb, ps2, ps, k);
    assert(cat_to(orig, addb, ps2, k + 1) == cat_to(orig, addb, ps2, k) + piece_view(
        orig,
        addb,
        ps2[k],
    ));
    assert(forall|j: int| 0 <= j < ps.len() - k - 1 ==> #[trigger] ps2[k + 1 + j] == ps[k + 1 + j]);
    lemma_cat_from_shift(orig, addb, ps2, ps, k + 1, k + 1);
    assert((cat_to(orig, addb, ps, k) + piece_view(orig, addb, q)) + cat_from(
        orig,
        addb,
        ps,
        k + 1,
    ) =~= cat_to(orig, addb, ps, k) + piece_view(orig, addb, q) + cat_from(orig, addb, ps, k + 1));
}

/// Removing the piece at index `k` removes exactly its text.
proof fn lemma_text_remove(orig: Seq<char>, addb: Seq<char>, ps: Seq<Piece>, k: int)
    requires
        0 <= k < ps.len(),
    ensures
        table_text(orig, addb, ps.remove(k)) == cat_to(orig, addb, ps, k) + cat_from(
            orig,
            addb,
            ps,
            k + 1,
        ),
{
    let ps2 = ps.remove(k);
    lemma_cat_split(orig, addb, ps2, k);
    lemma_cat_to_agrees(orig, addb, ps2, ps, k);
    assert(forall|j: int| 0 <= j < ps.len() - k - 1 ==> #[trigger] ps2[k + j] == ps[k + 1 + j]);
    lemma_cat_from_shift(orig, addb, ps2, ps, k, k + 1);
}

/// Appending a piece appends its text.
proof fn lemma_text_push(orig: Seq<char>, addb: Seq<char>, ps: Seq<Piece>, q: Piece)
    ensures
        table_text(orig, addb, ps.push(q)) == table_text(orig, addb, ps) + piece_view(
            orig,
            addb,
            q,
        ),
{
    let ps2 = ps.push(q);
    assert(cat_to(orig, addb, ps2, ps2.len() as int) == cat_to(orig, addb, ps2, ps.len() as int)
        + piece_view(orig, addb, ps2[ps.len() as int]));
    lemma_cat_to_agrees(orig, addb, ps2, ps, ps.len() as int);
}

/// Sequence concatenation is associative.
proof fn lemma_concat_assoc(a: Seq<char>, b: Seq<char>, c: Seq<char>)
    ensures
        (a + b) + c == a + (b + c),
{
    assert((a + b) + c =~= a + (b + c));
}

/// The empty sequence is a unit for concatenation.
proof fn lemma_concat_empty(a: Seq<char>)
    ensures
        a + Seq::<char>::empty() == a,
        Seq::<char>::empty() + a == a,
{
    assert(a + Seq::<char>::empty() =~= a);
    assert(Seq::<char>::empty() + a =~= a);
}

/// The document up to a point inside piece `i` is the prefix
/// concatenation plus the piece's left part.
proof fn lemma_prefix_decompose(orig: Seq<char>, addb: Seq<char>, ps: Seq<Piece>, i: int, off: int)
    requires
        pieces_bounded(orig, addb, ps),
        0 <= i < ps.len(),
        0 <= off <= ps[i].length,
    ensures
        table_text(orig, addb, ps).subrange(0, prefix_len(ps, i) + off) == cat_to(orig, addb, ps, i)
            + piece_view(orig, addb, ps[i]).subrange(0, off),
{
    lemma_piece_at(orig, addb, ps, i);
    lemma_cat_split(orig, addb, ps, i);
    lemma_cat_to_len(orig, addb, ps, i);
    assert(table_text(orig, addb, ps).subrange(0, prefix_len(ps, i) + off) =~= cat_to(
        orig,
        addb,
        ps,
        i,
    ) + piece_view(orig, addb, ps[i]).subrange(0, off));
}

/// The document from a point inside piece `i` on is the piece's right
/// part plus the suffix concatenation.
proof fn lemma_suffix_decompose(orig: Seq<char>, addb: Seq<char>, ps: Seq<Piece>, i: int, off: int)
    requires
        pieces_bounded(orig, addb, ps),
        0 <= i < ps.len(),
        0 <= off <= ps[i].length,
    ensures
        table_text(orig, addb, ps).subrange(
            prefix_len(ps, i) + off,
            table_text(orig, addb, ps).len() as int,
        ) == piece_view(orig, addb, ps[i]).subrange(off, ps[i].length as int) + cat_from(
            orig,
            addb,
            ps,
            i + 1,
        ),
{
    lemma_piece_at(orig, addb, ps, i);
    lemma_cat_split(orig, addb, ps, i);
    lemma_cat_to_len(orig, addb, ps, i);
    lemma_text_len(orig, addb, ps, i + 1);
    assert(cat_from(orig, addb, ps, i) == piece_view(orig, addb, ps[i]) + cat_from(
        orig,
        addb,
        ps,
        i + 1,
    ));
    assert(table_text(orig, addb, ps).subrange(
        prefix_len(ps, i) + off,
        table_text(orig, addb, ps).len() as int,
    ) =~= piece_view(orig, addb, ps[i]).subrange(off, ps[i].length as int) + cat_from(
        orig,
        addb,
        ps,
        i + 1,
    ));
}

/// The prefix and suffix concatenations at a boundary are the document's
/// subranges either side of the boundary's prefix sum.
proof fn lemma_cat_to_is_prefix(orig: Seq<char>, addb: Seq<char>, ps: Seq<Piece>, i: int)
    requires
        pieces_bounded(orig, addb, ps),
        0 <= i <= ps.len(),
    ensures
        0 <= prefix_len(ps, i) <= table_text(orig, addb, ps).len(),
        cat_to(orig, addb, ps, i) == table_text(orig, addb, ps).subrange(0, prefix_len(ps, i)),
        cat_from(orig, addb, ps, i) == table_text(orig, addb, ps).subrange(
            prefix_len(ps, i),
            table_text(orig, addb, ps).len() as int,
        ),
{
    lemma_cat_split(orig, addb, ps, i);
    lemma_cat_to_len(orig, addb, ps, i);
    lemma_text_len(orig, addb, ps, i);
    assert(cat_to(orig, addb, ps, i) =~= table_text(orig, addb, ps).subrange(
        0,
        prefix_len(ps, i),
    ));
    assert(cat_from(orig, addb, ps, i) =~= table_text(orig, addb, ps).subrange(
        prefix_len(ps, i),
        table_text(orig, addb, ps).len() as int,
    ));
}

/// Growing the add buffer changes no existing piece's text, nor the
/// document they concatenate to.
proof fn lemma_cat_stable_append(
    orig: Seq<char>,
    addb: Seq<char>,
    ext: Seq<char>,
    ps: Seq<Piece>,
    i: int,
)
    requires
        pieces_bounded(orig, addb, ps),
        0 <= i <= ps.len(),
    ensures
        cat_to(orig, addb + ext, ps, i) == cat_to(orig, addb, ps, i),
        cat_from(orig, addb + ext, ps, i) == cat_from(orig, addb, ps, i),
        pieces_bounded(orig, addb + ext, ps),
        forall|j: int| 0 <= j < ps.len() ==> piece_view(orig, addb + ext, #[trigger] ps[j])
            == piece_view(orig, addb, ps[j]),
{
    assert forall|j: int| 0 <= j < ps.len() implies piece_view(orig, addb + ext, #[trigger] ps[j])
        == piece_view(orig, addb, ps[j]) && piece_in_bounds(orig, addb + ext, ps[j]) by {
        let p = ps[j];
        match p.source {
            ID::Original => {},
            ID::Add => {
                assert((addb + ext).subrange(p.start as int, p.start + p.length) =~= addb.subrange(
                    p.start as int,
                    p.start + p.length,
                ));
            },
        }
    }
    lemma_cat_to_stable(orig, addb, ext, ps, i);
    lemma_cat_from_stable(orig, addb, ext, ps, i);
}

proof fn lemma_cat_to_stable(
    orig: Seq<char>,
    addb: Seq<char>,
    ext: Seq<char>,
    ps: Seq<Piece>,
    i: int,
)
    requires
        pieces_bounded(orig, addb, ps),
        0 <= i <= ps.len(),
        forall|j: int| 0 <= j < ps.len() ==> piece_view(orig, addb + ext, #[trigger] ps[j])
            == piece_view(orig, addb, ps[j]),
    ensures
        cat_to(orig, addb + ext, ps, i) == cat_to(orig, addb, ps, i),
    decreases i,
{
    if i > 0 {
        lemma_cat_to_stable(orig, addb, ext, ps, i - 1);
    }
}

proof fn lemma_cat_from_stable(
    orig: Seq<char>,
    addb: Seq<char>,
    ext: Seq<char>,
    ps: Seq<Piece>,
    i: int,
)
    requires
        pieces_bounded(orig, addb, ps),
        0 <= i <= ps.len(),
        forall|j: int| 0 <= j < ps.len() ==> piece_view(orig, addb + ext, #[trigger] ps[j])
            == piece_view(orig, addb, ps[j]),
    ensures
        cat_from(orig, addb + ext, ps, i) == cat_from(orig, addb, ps, i),
    decreases ps.len() - i,
{
    if i < ps.len() {
        lemma_cat_from_stable(orig, addb, ext, ps, i + 1);
    }
}

/// A piece's text is the slice of the document between its prefix sums.
proof fn lemma_piece_at(orig: Seq<char>, addb: Seq<char>, ps: Seq<Piece>, i: int)
    requires
        pieces_bounded(orig, addb, ps),
        0 <= i < ps.len(),
    ensures
        prefix_len(ps, i) + ps[i].length == prefix_len(ps, i + 1),
        0 <= prefix_len(ps, i),
        prefix_len(ps, i + 1) <= table_text(orig, addb, ps).len(),
        piece_view(orig, addb, ps[i]) == table_text(orig, addb, ps).subrange(
            prefix_len(ps, i),
            prefix_len(ps, i + 1),
        ),
{
    let text = table_text(orig, addb, ps);
    lemma_cat_split(orig, addb, ps, i);
    lemma_cat_to_len(orig, addb, ps, i);
    lemma_cat_to_len(orig, addb, ps, ps.len() as int);
    lemma_prefix_len_mono(ps, i + 1, ps.len() as int);
    lemma_prefix_len_mono(ps, 0, i);
    let pv = piece_view(orig, addb, ps[i]);
    assert(cat_from(orig, addb, ps, i) == pv + cat_from(orig, addb, ps, i + 1));
    assert(pv.len() == ps[i].length);
    assert(text.subrange(prefix_len(ps, i), prefix_len(ps, i + 1)) =~= pv);
}

/// The document's length is the sum of all piece lengths, and prefix sums
/// stay within it.
proof fn lemma_text_len(orig: Seq<char>, addb: Seq<char>, ps: Seq<Piece>, i: int)
    requires
        pieces_bounded(orig, addb, ps),
        0 <= i <= ps.len(),
    ensures
        table_text(orig, addb, ps).len() == prefix_len(ps, ps.len() as int),
        0 <= prefix_len(ps, i) <= table_text(orig, addb, ps).len(),
{
    lemma_cat_to_len(orig, addb, ps, ps.len() as int);
    lemma_prefix_len_mono(ps, 0, i);
    lemma_prefix_len_mono(ps, i, ps.len() as int);
}

/// How much of the requested range `[start, end)` the first pieces cover
/// once the scan has reached document offset `x`.
spec fn covered_upto(start: int, end: int, x: int) -> int {
    if x <= start {
        start
    } else if x <= end {
        x
    } else {
        end
    }
}

/// Law: a well-formed table's reported length is the length of its text,
/// so `len()` always equals the length of `get_text(0, len())`.
pub proof fn lemma_length_invariant(t: Table)
    requires
        t.wf(),
    ensures
        t.spec_len() == t.text_view().len(),
{
}

/// Law: a well-formed table reports one more line than its text holds
/// `'\n'` characters, so `lines()` always equals that count plus one for
/// `get_text(0, len())`.
pub proof fn lemma_line_count_invariant(t: Table)
    requires
        t.wf(),
    ensures
        t.spec_lines() == newline_count(t.text_view()) + 1,
{
}

/// Law: splicing a string into a text at an offset and then removing the
/// same span restores the text, so an insert followed by the matching
/// delete is the identity on the document.
pub proof fn lemma_insert_then_delete_restores(doc: Seq<char>, ins: Seq<char>, off: int)
    requires
        0 <= off <= doc.len(),
    ensures
        ({
            let spliced = doc.subrange(0, off) + ins + doc.subrange(off, doc.len() as int);
            spliced.subrange(0, off) + spliced.subrange(off + ins.len(), spliced.len() as int)
                == doc
        }),
{
    let spliced = doc.subrange(0, off) + ins + doc.subrange(off, doc.len() as int);
    assert(spliced.subrange(0, off) =~= doc.subrange(0, off));
    assert(spliced.subrange(off + ins.len(), spliced.len() as int) =~= doc.subrange(
        off,
        doc.len() as int,
    ));
    assert(doc.subrange(0, off) + doc.subrange(off, doc.len() as int) =~= doc);
}

/// Piece table data structure for efficient text editing.
#[derive(Debug, Clone)]
pub struct Table {
    /// The original buffer (read-only).
    original: String,
    /// The add buffer (for inserted text).
    add_buffer: String,
    /// List of pieces representing the current document.
    pieces: Vec<Piece>,
    /// Cache of line start checkpoints; rebuilt on demand, never consulted
    /// by the verified read paths.
    line_cache: Vec<Info>,
    /// Total length of the document, in characters.
    total_length: usize,
    /// Total number of lines in the document.
    total_lines: usize,
    /// Indicates if the line cache is dirty.
    line_cache_dirty: bool,
    /// Offset from which the character caches are dirty.
    char_cache_dirty_from: usize,
}

impl Table {
    /// The view of the original buffer.
    pub closed spec fn orig_view(self) -> Seq<char> {
        self.original@
    }

    /// The view of the add buffer.
    pub closed spec fn add_view(self) -> Seq<char> {
        self.add_buffer@
    }

    /// The pieces as a sequence.
    pub closed spec fn pieces_view(self) -> Seq<Piece> {
        self.pieces@
    }

    /// The document text: the concatenation, in order, of the pieces'
    /// texts.
    pub closed spec fn text_view(self) -> Seq<char> {
        table_text(self.original@, self.add_buffer@, self.pieces@)
    }

    /// The cached document length.
    pub closed spec fn spec_len(self) -> int {
        self.total_length as int
    }

    /// The cached line count.
    pub closed spec fn spec_lines(self) -> int {
        self.total_lines as int
    }

    /// Well-formedness: pieces lie in their buffers, are non-empty, carry
    /// true line-break counts, and the cached totals equal the length and
    /// line count of the document text.
    pub closed spec fn wf(self) -> bool {
        &&& pieces_ok(self.original@, self.add_buffer@, self.pieces@)
        &&& self.original@.len() <= usize::MAX
        &&& self.add_buffer@.len() <= usize::MAX
        &&& self.total_length == self.text_view().len()
        &&& self.total_lines == newline_count(self.text_view()) + 1
    }

    /// Creates a new piece table holding the given initial text: the
    /// initial text is stored verbatim as the original buffer, and the
    /// add buffer starts empty.
    pub fn new(initial: String) -> (t: Self)
        requires
            initial@.len() < usize::MAX,
        ensures
            t.wf(),
            t.text_view() == initial@,
            t.spec_len() == initial@.len(),
            t.spec_lines() == newline_count(initial@) + 1,
            t.orig_view() == initial@,
            t.add_view() == Seq::<char>::empty(),
    {
        let line_breaks: usize = count_line_breaks(initial.as_str());
        let length: usize = initial.as_str().unicode_len();
        proof {
            crate::util::lemma_newline_count_le(initial@);
        }
        let mut pieces: Vec<Piece> = Vec::new();
        if length > 0 {
            pieces.push(
                Piece { source: ID::Original, start: 0, length, line_breaks },
            );
        }
        let mut table = Self {
            original: initial,
            add_buffer: String::new(),
            pieces,
            line_cache: Vec::new(),
            total_length: length,
            total_lines: line_breaks + 1,
            line_cache_dirty: true,
            char_cache_dirty_from: 0,
        };
        proof {
            let orig = table.original@;
            let addb = table.add_buffer@;
            let ps = table.pieces@;
            if length > 0 {
                let p = ps[0];
                assert(piece_view(orig, addb, p) =~= orig);
                assert(cat_to(orig, addb, ps, 0) =~= Seq::<char>::empty());
                assert(cat_to(orig, addb, ps, 1) =~= orig);
            } else {
                assert(table.text_view() =~= Seq::<char>::empty());
                assert(orig =~= Seq::<char>::empty());
                assert(newline_count(Seq::<char>::empty()) == 0);
            }
        }
        table.rebuild_caches();
        table
    }

    /// Returns the total length of the document, in characters.
    pub fn len(&self) -> (r: usize)
        ensures
            r == self.spec_len(),
    {
        self.total_length
    }

    /// Returns the total number of lines in the document.
    pub fn lines(&self) -> (r: usize)
        ensures
            r == self.spec_lines(),
    {
        self.total_lines
    }

    /// Returns the absolute document offset at which the given piece
    /// starts (the sum of the lengths of the pieces before it).
    fn get_piece_start_offset(&self, piece_idx: usize) -> (r: usize)
        requires
            self.wf(),
            piece_idx <= self.pieces_view().len(),
        ensures
            r == prefix_len(self.pieces_view(), piece_idx as int),
    {
        let ghost ps = self.pieces@;
        let mut sum: usize = 0;
        let mut i: usize = 0;
        while i < piece_idx
            invariant
                self.wf(),
                ps == self.pieces@,
                i <= piece_idx <= ps.len(),
                sum == prefix_len(ps, i as int),
            decreases piece_idx - i,
        {
            proof {
                lemma_text_len(self.original@, self.add_buffer@, ps, i as int + 1);
            }
            let piece = self.pieces[i];
            sum = sum + piece.length;
            i = i + 1;
        }
        sum
    }

    /// Finds the index of the piece containing the given offset.
    ///
    /// An offset equal to the document length names the last piece; on an
    /// empty document the piece count (zero) is returned.
    fn find_piece_containing_offset(&self, offset: usize) -> (r: usize)
        requires
            self.wf(),
            offset <= self.spec_len(),
        ensures
            ({
                let ps = self.pieces_view();
                if self.spec_len() == 0 {
                    r == ps.len()
                } else if offset == self.spec_len() {
                    r + 1 == ps.len()
                } else {
                    &&& r < ps.len()
                    &&& prefix_len(ps, r as int) <= offset < prefix_len(ps, r as int + 1)
                }
            }),
    {
        let ghost ps = self.pieces@;
        proof {
            lemma_text_len(self.original@, self.add_buffer@, ps, 0);
            lemma_prefix_len_at_least(ps, ps.len() as int);
        }
        if offset > 0 && offset == self.total_length {
            return self.pieces.len() - 1;
        }
        let n: usize = self.pieces.len();
        let mut current_offset: usize = 0;
        let mut i: usize = 0;
        while i < n
            invariant
                self.wf(),
                ps == self.pieces@,
                n == ps.len(),
                offset < self.total_length || self.total_length == 0,
                i <= n,
                current_offset == prefix_len(ps, i as int),
                current_offset <= offset,
            decreases n - i,
        {
            proof {
                lemma_text_len(self.original@, self.add_buffer@, ps, i as int + 1);
            }
            let piece = self.pieces[i];
            if current_offset + piece.length > offset {
                return i;
            }
            current_offset = current_offset + piece.length;
            i = i + 1;
        }
        proof {
            lemma_text_len(self.original@, self.add_buffer@, ps, n as int);
        }
        self.pieces.len()
    }

    /// Returns the text in the range `[start, start + length)`.
    ///
    /// A request that reaches beyond the end of the document yields the
    /// empty string rather than an error.
    pub fn get_text(&self, start: usize, length: usize) -> (r: String)
        requires
            self.wf(),
        ensures
            start + length <= self.spec_len() ==> r@ == self.text_view().subrange(
                start as int,
                start + length,
            ),
            start + length > self.spec_len() ==> r@ == Seq::<char>::empty(),
    {
        if length > self.total_length || start > self.total_length - length {
            return String::new();
        }
        let end: usize = start + length;
        let ghost ps = self.pieces@;
        let ghost text = self.text_view();
        let mut result = String::new();
        let mut doc_off: usize = 0;
        let mut i: usize = 0;
        let n: usize = self.pieces.len();
        proof {
            assert(text.subrange(start as int, covered_upto(start as int, end as int, 0))
                =~= Seq::<char>::empty());
        }
        while i < n
            invariant
                self.wf(),
                ps == self.pieces@,
                text == self.text_view(),
                n == ps.len(),
                start <= end <= self.total_length,
                i <= n,
                doc_off == prefix_len(ps, i as int),
                doc_off <= self.total_length,
                result@ == text.subrange(
                    start as int,
                    covered_upto(start as int, end as int, doc_off as int),
                ),
            decreases n - i,
        {
            let ghost orig = self.original@;
            let ghost addb = self.add_buffer@;
            proof {
                lemma_text_len(orig, addb, ps, i as int + 1);
                lemma_piece_at(orig, addb, ps, i as int);
            }
            let piece = self.pieces[i];
            let piece_end: usize = doc_off + piece.length;
            if piece_end > start && doc_off < end {
                let lo: usize = if start > doc_off {
                    start - doc_off
                } else {
                    0
                };
                let hi: usize = if end < piece_end {
                    end - doc_off
                } else {
                    piece.length
                };
                let src_str: &str = match piece.source {
                    ID::Original => self.original.as_str(),
                    ID::Add => self.add_buffer.as_str(),
                };
                let sub: &str = src_str.substring_char(piece.start + lo, piece.start + hi);
                proof {
                    let pv = piece_view(orig, addb, ps[i as int]);
                    assert(sub@ =~= pv.subrange(lo as int, hi as int));
                    assert(pv.subrange(lo as int, hi as int) =~= text.subrange(
                        doc_off + lo,
                        doc_off + hi,
                    ));
                }
                result.append(sub);
                proof {
                    assert(result@ =~= text.subrange(
                        start as int,
                        covered_upto(start as int, end as int, piece_end as int),
                    ));
                }
            } else {
                proof {
                    assert(covered_upto(start as int, end as int, piece_end as int)
                        == covered_upto(start as int, end as int, doc_off as int));
                }
            }
            doc_off = piece_end;
            i = i + 1;
        }
        proof {
            lemma_text_len(self.original@, self.add_buffer@, ps, n as int);
            assert(covered_upto(start as int, end as int, doc_off as int) == end as int);
        }
        result
    }

    /// Splits the piece at `piece_idx` so that document offset `offset`
    /// falls on a piece boundary, and returns the index at which a new
    /// piece would occupy exactly that offset.  Returns `None`, changing
    /// nothing, when `piece_idx` does not name a piece.
    #[verifier::rlimit(80)]
    fn split_piece_at(&mut self, piece_idx: usize, offset: usize) -> (r: Option<usize>)
        requires
            old(self).wf(),
            offset <= old(self).spec_len(),
            piece_idx < old(self).pieces_view().len() ==> prefix_len(
                old(self).pieces_view(),
                piece_idx as int,
            ) <= offset <= prefix_len(old(self).pieces_view(), piece_idx as int) + old(
                self,
            ).pieces_view()[piece_idx as int].length,
        ensures
            final(self).wf(),
            final(self).text_view() == old(self).text_view(),
            final(self).spec_len() == old(self).spec_len(),
            final(self).spec_lines() == old(self).spec_lines(),
            final(self).orig_view() == old(self).orig_view(),
            final(self).add_view() == old(self).add_view(),
            match r {
                Option::None => piece_idx >= old(self).pieces_view().len() && *final(self) == *old(
                    self,
                ),
                Option::Some(idx) => idx <= final(self).pieces_view().len() && prefix_len(
                    final(self).pieces_view(),
                    idx as int,
                ) == offset,
            },
    {
        let ghost orig = self.original@;
        let ghost addb = self.add_buffer@;
        let ghost ps = self.pieces@;
        if piece_idx >= self.pieces.len() {
            return Option::None;
        }
        let piece = self.pieces[piece_idx];
        let piece_start_offset: usize = self.get_piece_start_offset(piece_idx);
        let offset_in_piece: usize = offset - piece_start_offset;
        if offset_in_piece == 0 {
            return Option::Some(piece_idx);
        }
        if offset_in_piece >= piece.length {
            return Option::Some(piece_idx + 1);
        }
        let src_str: &str = match piece.source {
            ID::Original => self.original.as_str(),
            ID::Add => self.add_buffer.as_str(),
        };
        let piece_str: &str = src_str.substring_char(piece.start, piece.start + piece.length);
        let left_str: &str = piece_str.substring_char(0, offset_in_piece);
        let right_str: &str = piece_str.substring_char(offset_in_piece, piece.length);
        let left_breaks: usize = count_line_breaks(left_str);
        let right_breaks: usize = count_line_breaks(right_str);
        let left_piece = Piece {
            source: piece.source,
            start: piece.start,
            length: offset_in_piece,
            line_breaks: left_breaks,
        };
        let right_piece = Piece {
            source: piece.source,
            start: piece.start + offset_in_piece,
            length: piece.length - offset_in_piece,
            line_breaks: right_breaks,
        };
        self.pieces.set(piece_idx, left_piece);
        self.pieces.insert(piece_idx + 1, right_piece);
        proof {
            let k = piece_idx as int;
            let pv = piece_view(orig, addb, ps[k]);
            let off = offset_in_piece as int;
            let ps_mid = ps.update(k, left_piece);
            let ps_fin = ps_mid.insert(k + 1, right_piece);
            assert(self.pieces@ == ps_fin);
            assert(left_str@ =~= pv.subrange(0, off));
            assert(right_str@ =~= pv.subrange(off, pv.len() as int));
            assert(piece_view(orig, addb, left_piece) =~= pv.subrange(0, off));
            assert(piece_view(orig, addb, right_piece) =~= pv.subrange(off, pv.len() as int));
            lemma_text_insert(orig, addb, ps_mid, k + 1, right_piece);
            lemma_cat_to_agrees(orig, addb, ps_mid, ps, k);
            assert(cat_to(orig, addb, ps_mid, k + 1) == cat_to(orig, addb, ps_mid, k)
                + piece_view(orig, addb, left_piece));
            assert(forall|j: int| 0 <= j < ps.len() - k - 1 ==> #[trigger] ps_mid[k + 1 + j]
                == ps[k + 1 + j]);
            lemma_cat_from_shift(orig, addb, ps_mid, ps, k + 1, k + 1);
            lemma_cat_split(orig, addb, ps, k);
            assert(cat_from(orig, addb, ps, k) == pv + cat_from(orig, addb, ps, k + 1));
            assert(piece_view(orig, addb, left_piece) + piece_view(orig, addb, right_piece)
                =~= pv);
            assert(table_text(orig, addb, ps_fin) =~= table_text(orig, addb, ps));
            assert forall|j: int| 0 <= j < ps_fin.len() implies piece_in_bounds(
                orig,
                addb,
                #[trigger] ps_fin[j],
            ) && piece_exact(orig, addb, ps_fin[j]) by {
                if j < k {
                    assert(ps_fin[j] == ps[j]);
                } else if j == k {
                    assert(ps_fin[j] == left_piece);
                } else if j == k + 1 {
                    assert(ps_fin[j] == right_piece);
                } else {
                    assert(ps_fin[j] == ps[j - 1]);
                }
            }
            assert(prefix_len(ps_fin, k + 1) == prefix_len(ps_fin, k) + offset_in_piece);
            assert(prefix_len(ps_fin, k) == prefix_len(ps, k)) by {
                lemma_cat_to_agrees(orig, addb, ps_fin, ps, k);
            }
        }
        Option::Some(piece_idx + 1)
    }

    /// Attempts to merge the piece at `piece_idx` into its predecessor:
    /// two adjacent pieces that slice contiguous ranges of the same buffer
    /// become one.  The document text never changes.
    #[verifier::rlimit(50)]
    fn coalesce_pieces_around(&mut self, piece_idx: usize)
        requires
            old(self).wf(),
        ensures
            final(self).wf(),
            final(self).text_view() == old(self).text_view(),
            final(self).spec_len() == old(self).spec_len(),
            final(self).spec_lines() == old(self).spec_lines(),
            final(self).orig_view() == old(self).orig_view(),
            final(self).add_view() == old(self).add_view(),
    {
        if self.pieces.len() < 2 || piece_idx == 0 || piece_idx >= self.pieces.len() {
            return;
        }
        let ghost orig = self.original@;
        let ghost addb = self.add_buffer@;
        let ghost ps = self.pieces@;
        let ghost k = piece_idx as int;
        let prev = self.pieces[piece_idx - 1];
        let curr = self.pieces[piece_idx];
        proof {
            assert(piece_in_bounds(orig, addb, ps[k - 1]) && piece_exact(orig, addb, ps[k - 1]));
            assert(piece_in_bounds(orig, addb, ps[k]) && piece_exact(orig, addb, ps[k]));
            crate::util::lemma_newline_count_le(piece_view(orig, addb, ps[k - 1]));
            crate::util::lemma_newline_count_le(piece_view(orig, addb, ps[k]));
        }
        let can_merge: bool = prev.source == curr.source && prev.start + prev.length == curr.start;
        if can_merge {
            let merged = Piece {
                source: prev.source,
                start: prev.start,
                length: prev.length + curr.length,
                line_breaks: prev.line_breaks + curr.line_breaks,
            };
            self.pieces.set(piece_idx - 1, merged);
            self.pieces.remove(piece_idx);
            proof {
                let pv_prev = piece_view(orig, addb, prev);
                let pv_curr = piece_view(orig, addb, curr);
                let ps_mid = ps.update(k - 1, merged);
                let ps_fin = ps_mid.remove(k);
                assert(self.pieces@ == ps_fin);
                assert(piece_view(orig, addb, merged) =~= pv_prev + pv_curr);
                lemma_newline_count_concat(pv_prev, pv_curr);
                lemma_text_remove(orig, addb, ps_mid, k);
                lemma_cat_to_agrees(orig, addb, ps_mid, ps, k - 1);
                assert(cat_to(orig, addb, ps_mid, k) == cat_to(orig, addb, ps_mid, k - 1)
                    + piece_view(orig, addb, merged));
                assert(forall|j: int| 0 <= j < ps.len() - k - 1 ==> #[trigger] ps_mid[k + 1 + j]
                    == ps[k + 1 + j]);
                lemma_cat_from_shift(orig, addb, ps_mid, ps, k + 1, k + 1);
                lemma_cat_split(orig, addb, ps, k - 1);
                assert(cat_from(orig, addb, ps, k - 1) == pv_prev + cat_from(orig, addb, ps, k));
                assert(cat_from(orig, addb, ps, k) == pv_curr + cat_from(orig, addb, ps, k + 1));
                assert(table_text(orig, addb, ps_fin) =~= table_text(orig, addb, ps));
                assert forall|j: int| 0 <= j < ps_fin.len() implies piece_in_bounds(
                    orig,
                    addb,
                    #[trigger] ps_fin[j],
                ) && piece_exact(orig, addb, ps_fin[j]) by {
                    if j < k - 1 {
                        assert(ps_fin[j] == ps[j]);
                    } else if j == k - 1 {
                        assert(ps_fin[j] == merged);
                    } else {
                        assert(ps_fin[j] == ps[j + 1]);
                    }
                }
            }
        }
    }

    /// Counts the line breaks inside the document range `[start, end)`.
    fn count_line_breaks_in_range(&self, start: usize, end: usize) -> (r: usize)
        requires
            self.wf(),
            start <= end <= self.spec_len(),
        ensures
            r == newline_count(self.text_view().subrange(start as int, end as int)),
    {
        let text = self.get_text(start, end - start);
        count_line_breaks(text.as_str())
    }

    /// Deletes the document range `[start, end)` when it falls entirely
    /// within the piece at `piece_idx`: the piece is removed, shrunk at an
    /// edge, or split around the deleted middle.  The cached totals are
    /// left to the caller.
    #[verifier::rlimit(50)]
    fn delete_within_piece(&mut self, piece_idx: usize, start: usize, end: usize)
        requires
            old(self).wf(),
            piece_idx < old(self).pieces_view().len(),
            prefix_len(old(self).pieces_view(), piece_idx as int) <= start < end,
            end <= prefix_len(old(self).pieces_view(), piece_idx as int) + old(
                self,
            ).pieces_view()[piece_idx as int].length,
        ensures
            final(self).orig_view() == old(self).orig_view(),
            final(self).add_view() == old(self).add_view(),
            final(self).total_length == old(self).total_length,
            final(self).total_lines == old(self).total_lines,
            pieces_ok(final(self).orig_view(), final(self).add_view(), final(self).pieces_view()),
            final(self).text_view() == old(self).text_view().subrange(0, start as int) + old(
                self,
            ).text_view().subrange(end as int, old(self).text_view().len() as int),
    {
        let ghost orig = self.original@;
        let ghost addb = self.add_buffer@;
        let ghost ps = self.pieces@;
        let ghost text0 = self.text_view();
        let ghost k = piece_idx as int;
        let ghost sub1 = text0.subrange(0, start as int);
        let ghost sub2 = text0.subrange(end as int, text0.len() as int);
        let n: usize = self.pieces.len();
        let piece = self.pieces[piece_idx];
        let piece_start_offset: usize = self.get_piece_start_offset(piece_idx);
        let off_s: usize = start - piece_start_offset;
        let off_e: usize = end - piece_start_offset;
        let dlen: usize = off_e - off_s;
        let ghost pv = piece_view(orig, addb, ps[k]);
        proof {
            assert(piece_in_bounds(orig, addb, ps[k]) && piece_exact(orig, addb, ps[k]));
            lemma_piece_at(orig, addb, ps, k);
            lemma_prefix_decompose(orig, addb, ps, k, off_s as int);
            lemma_suffix_decompose(orig, addb, ps, k, off_e as int);
            assert(sub1 == cat_to(orig, addb, ps, k) + pv.subrange(0, off_s as int));
            assert(sub2 == pv.subrange(off_e as int, pv.len() as int) + cat_from(
                orig,
                addb,
                ps,
                k + 1,
            ));
        }
        if dlen == piece.length {
            self.pieces.remove(piece_idx);
            proof {
                let ps_fin = ps.remove(k);
                assert(self.pieces@ == ps_fin);
                lemma_text_remove(orig, addb, ps, k);
                assert(pv.subrange(0, 0) =~= Seq::<char>::empty());
                assert(pv.subrange(pv.len() as int, pv.len() as int) =~= Seq::<char>::empty());
                lemma_concat_empty(cat_to(orig, addb, ps, k));
                lemma_concat_empty(cat_from(orig, addb, ps, k + 1));
                assert(table_text(orig, addb, ps_fin) == sub1 + sub2);
                assert forall|j: int| 0 <= j < ps_fin.len() implies piece_in_bounds(
                    orig,
                    addb,
                    #[trigger] ps_fin[j],
                ) && piece_exact(orig, addb, ps_fin[j]) by {
                    if j < k {
                        assert(ps_fin[j] == ps[j]);
                    } else {
                        assert(ps_fin[j] == ps[j + 1]);
                    }
                }
            }
            return ;
        }
        let src_str: &str = match piece.source {
            ID::Original => self.original.as_str(),
            ID::Add => self.add_buffer.as_str(),
        };
        let piece_str: &str = src_str.substring_char(piece.start, piece.start + piece.length);
        if off_s == 0 {
            let kept_str: &str = piece_str.substring_char(off_e, piece.length);
            let kept_breaks: usize = count_line_breaks(kept_str);
            let new_piece = Piece {
                source: piece.source,
                start: piece.start + dlen,
                length: piece.length - dlen,
                line_breaks: kept_breaks,
            };
            self.pieces.set(piece_idx, new_piece);
            proof {
                let ps_fin = ps.update(k, new_piece);
                assert(self.pieces@ == ps_fin);
                let pvk = pv.subrange(off_e as int, pv.len() as int);
                assert(kept_str@ == pvk) by {
                    assert(kept_str@ =~= pvk);
                }
                assert(piece_view(orig, addb, new_piece) == pvk) by {
                    assert(piece_view(orig, addb, new_piece) =~= pvk);
                }
                lemma_text_update(orig, addb, ps, k, new_piece);
                assert(pv.subrange(0, 0) =~= Seq::<char>::empty());
                lemma_concat_empty(cat_to(orig, addb, ps, k));
                lemma_concat_assoc(cat_to(orig, addb, ps, k), pvk, cat_from(orig, addb, ps, k + 1));
                assert(table_text(orig, addb, ps_fin) == sub1 + sub2);
                assert forall|j: int| 0 <= j < ps_fin.len() implies piece_in_bounds(
                    orig,
                    addb,
                    #[trigger] ps_fin[j],
                ) && piece_exact(orig, addb, ps_fin[j]) by {
                    if j != k {
                        assert(ps_fin[j] == ps[j]);
                    }
                }
            }
        } else if off_e == piece.length {
            let kept_str: &str = piece_str.substring_char(0, off_s);
            let kept_breaks: usize = count_line_breaks(kept_str);
            let new_piece = Piece {
                source: piece.source,
                start: piece.start,
                length: off_s,
                line_breaks: kept_breaks,
            };
            self.pieces.set(piece_idx, new_piece);
            proof {
                let ps_fin = ps.update(k, new_piece);
                assert(self.pieces@ == ps_fin);
                let pvk = pv.subrange(0, off_s as int);
                assert(kept_str@ == pvk) by {
                    assert(kept_str@ =~= pvk);
                }
                assert(piece_view(orig, addb, new_piece) == pvk) by {
                    assert(piece_view(orig, addb, new_piece) =~= pvk);
                }
                lemma_text_update(orig, addb, ps, k, new_piece);
                assert(pv.subrange(off_e as int, pv.len() as int) =~= Seq::<char>::empty());
                lemma_concat_empty(cat_from(orig, addb, ps, k + 1));
                assert(table_text(orig, addb, ps_fin) == sub1 + sub2);
                assert forall|j: int| 0 <= j < ps_fin.len() implies piece_in_bounds(
                    orig,
                    addb,
                    #[trigger] ps_fin[j],
                ) && piece_exact(orig, addb, ps_fin[j]) by {
                    if j != k {
                        assert(ps_fin[j] == ps[j]);
                    }
                }
            }
        } else {
            let left_str: &str = piece_str.substring_char(0, off_s);
            let right_str: &str = piece_str.substring_char(off_e, piece.length);
            let left_breaks: usize = count_line_breaks(left_str);
            let right_breaks: usize = count_line_breaks(right_str);
            let left_piece = Piece {
                source: piece.source,
                start: piece.start,
                length: off_s,
                line_breaks: left_breaks,
            };
            let right_piece = Piece {
                source: piece.source,
                start: piece.start + off_e,
                length: piece.length - off_e,
                line_breaks: right_breaks,
            };
            self.pieces.set(piece_idx, left_piece);
            self.pieces.insert(piece_idx + 1, right_piece);
            proof {
                let ps_mid = ps.update(k, left_piece);
                let ps_fin = ps_mid.insert(k + 1, right_piece);
                assert(self.pieces@ == ps_fin);
                let pvl = pv.subrange(0, off_s as int);
                let pvr = pv.subrange(off_e as int, pv.len() as int);
                assert(left_str@ == pvl) by {
                    assert(left_str@ =~= pvl);
                }
                assert(right_str@ == pvr) by {
                    assert(right_str@ =~= pvr);
                }
                assert(piece_view(orig, addb, left_piece) == pvl) by {
                    assert(piece_view(orig, addb, left_piece) =~= pvl);
                }
                assert(piece_view(orig, addb, right_piece) == pvr) by {
                    assert(piece_view(orig, addb, right_piece) =~= pvr);
                }
                lemma_text_insert(orig, addb, ps_mid, k + 1, right_piece);
                lemma_cat_to_agrees(orig, addb, ps_mid, ps, k);
                assert(cat_to(orig, addb, ps_mid, k + 1) == cat_to(orig, addb, ps_mid, k)
                    + piece_view(orig, addb, left_piece));
                assert(forall|j: int| 0 <= j < ps.len() - k - 1 ==> #[trigger] ps_mid[k + 1 + j]
                    == ps[k + 1 + j]);
                lemma_cat_from_shift(orig, addb, ps_mid, ps, k + 1, k + 1);
                lemma_concat_assoc(
                    cat_to(orig, addb, ps, k) + pvl,
                    pvr,
                    cat_from(orig, addb, ps, k + 1),
                );
                assert(table_text(orig, addb, ps_fin) == sub1 + sub2);
                assert forall|j: int| 0 <= j < ps_fin.len() implies piece_in_bounds(
                    orig,
                    addb,
                    #[trigger] ps_fin[j],
                ) && piece_exact(orig, addb, ps_fin[j]) by {
                    if j < k {
                        assert(ps_fin[j] == ps[j]);
                    } else if j == k {
                        assert(ps_fin[j] == left_piece);
                    } else if j == k + 1 {
                        assert(ps_fin[j] == right_piece);
                    } else {
                        assert(ps_fin[j] == ps[j - 1]);
                    }
                }
            }
        }
    }

    /// Deletes the document range `[start, end)` when it spans several
    /// pieces: the first keeps its left remainder, the last keeps its
    /// right remainder, and everything strictly between them goes.  The
    /// affected span of the piece list is rebuilt; the cached totals are
    /// left to the caller.
    #[verifier::rlimit(80)]
    fn delete_across_pieces(
        &mut self,
        start_piece_idx: usize,
        end_piece_idx: usize,
        start: usize,
        end: usize,
    )
        requires
            old(self).wf(),
            start_piece_idx < end_piece_idx < old(self).pieces_view().len(),
            prefix_len(old(self).pieces_view(), start_piece_idx as int) <= start < prefix_len(
                old(self).pieces_view(),
                start_piece_idx as int,
            ) + old(self).pieces_view()[start_piece_idx as int].length,
            prefix_len(old(self).pieces_view(), end_piece_idx as int) <= end <= prefix_len(
                old(self).pieces_view(),
                end_piece_idx as int,
            ) + old(self).pieces_view()[end_piece_idx as int].length,
        ensures
            final(self).orig_view() == old(self).orig_view(),
            final(self).add_view() == old(self).add_view(),
            final(self).total_length == old(self).total_length,
            final(self).total_lines == old(self).total_lines,
            pieces_ok(final(self).orig_view(), final(self).add_view(), final(self).pieces_view()),
            final(self).text_view() == old(self).text_view().subrange(0, start as int) + old(
                self,
            ).text_view().subrange(end as int, old(self).text_view().len() as int),
    {
        let ghost orig = self.original@;
        let ghost addb = self.add_buffer@;
        let ghost ps = self.pieces@;
        let ghost text0 = self.text_view();
        let ghost si = start_piece_idx as int;
        let ghost ei = end_piece_idx as int;
        let ghost sub1 = text0.subrange(0, start as int);
        let ghost sub2 = text0.subrange(end as int, text0.len() as int);
        let first = self.pieces[start_piece_idx];
        let last = self.pieces[end_piece_idx];
        let first_start: usize = self.get_piece_start_offset(start_piece_idx);
        let last_start: usize = self.get_piece_start_offset(end_piece_idx);
        let off_first: usize = start - first_start;
        let off_last: usize = end - last_start;
        let ghost pv_first = piece_view(orig, addb, ps[si]);
        let ghost pv_last = piece_view(orig, addb, ps[ei]);
        let ghost lst = pv_last.subrange(off_last as int, pv_last.len() as int);
        let ghost head = sub1 + lst;
        proof {
            assert(piece_in_bounds(orig, addb, ps[si]) && piece_exact(orig, addb, ps[si]));
            assert(piece_in_bounds(orig, addb, ps[ei]) && piece_exact(orig, addb, ps[ei]));
            lemma_piece_at(orig, addb, ps, si);
            lemma_piece_at(orig, addb, ps, ei);
            lemma_prefix_decompose(orig, addb, ps, si, off_first as int);
            lemma_suffix_decompose(orig, addb, ps, ei, off_last as int);
            assert(sub1 == cat_to(orig, addb, ps, si) + pv_first.subrange(0, off_first as int));
            assert(sub2 == lst + cat_from(orig, addb, ps, ei + 1));
        }
        let first_src: &str = match first.source {
            ID::Original => self.original.as_str(),
            ID::Add => self.add_buffer.as_str(),
        };
        let first_kept_breaks: usize = count_line_breaks(
            first_src.substring_char(first.start, first.start + off_first),
        );
        let last_src: &str = match last.source {
            ID::Original => self.original.as_str(),
            ID::Add => self.add_buffer.as_str(),
        };
        let last_kept_breaks: usize = count_line_breaks(
            last_src.substring_char(last.start + off_last, last.start + last.length),
        );
        let mut new_pieces: Vec<Piece> = Vec::new();
        proof {
            assert(table_text(orig, addb, new_pieces@) =~= cat_to(orig, addb, ps, 0));
        }
        let mut i: usize = 0;
        while i < start_piece_idx
            invariant
                self.wf(),
                ps == self.pieces@,
                orig == self.original@,
                addb == self.add_buffer@,
                si == start_piece_idx as int,
                i <= si < ps.len(),
                table_text(orig, addb, new_pieces@) == cat_to(orig, addb, ps, i as int),
                forall|jj: int| 0 <= jj < new_pieces@.len() ==> piece_in_bounds(
                    orig,
                    addb,
                    #[trigger] new_pieces@[jj],
                ) && piece_exact(orig, addb, new_pieces@[jj]),
            decreases si - i,
        {
            let p = self.pieces[i];
            proof {
                lemma_text_push(orig, addb, new_pieces@, p);
                assert(piece_in_bounds(orig, addb, ps[i as int]) && piece_exact(
                    orig,
                    addb,
                    ps[i as int],
                ));
            }
            new_pieces.push(p);
            i = i + 1;
        }
        if off_first > 0 {
            let kept = Piece {
                source: first.source,
                start: first.start,
                length: off_first,
                line_breaks: first_kept_breaks,
            };
            proof {
                assert(piece_view(orig, addb, kept) == pv_first.subrange(0, off_first as int)) by {
                    assert(piece_view(orig, addb, kept) =~= pv_first.subrange(0, off_first as int));
                }
                lemma_text_push(orig, addb, new_pieces@, kept);
            }
            new_pieces.push(kept);
        } else {
            proof {
                assert(pv_first.subrange(0, 0) =~= Seq::<char>::empty());
                lemma_concat_empty(cat_to(orig, addb, ps, si));
            }
        }
        proof {
            assert(table_text(orig, addb, new_pieces@) == sub1);
        }
        if off_last < last.length {
            let kept = Piece {
                source: last.source,
                start: last.start + off_last,
                length: last.length - off_last,
                line_breaks: last_kept_breaks,
            };
            proof {
                assert(piece_view(orig, addb, kept) == lst) by {
                    assert(piece_view(orig, addb, kept) =~= lst);
                }
                lemma_text_push(orig, addb, new_pieces@, kept);
            }
            new_pieces.push(kept);
        } else {
            proof {
                assert(lst =~= Seq::<char>::empty());
                lemma_concat_empty(sub1);
            }
        }
        proof {
            assert(table_text(orig, addb, new_pieces@) == head);
        }
        let n: usize = self.pieces.len();
        let mut j: usize = end_piece_idx + 1;
        while j < n
            invariant
                self.wf(),
                ps == self.pieces@,
                orig == self.original@,
                addb == self.add_buffer@,
                ei == end_piece_idx as int,
                n == ps.len(),
                ei < j <= n,
                table_text(orig, addb, new_pieces@) + cat_from(orig, addb, ps, j as int) == head
                    + cat_from(orig, addb, ps, ei + 1),
                forall|jj: int| 0 <= jj < new_pieces@.len() ==> piece_in_bounds(
                    orig,
                    addb,
                    #[trigger] new_pieces@[jj],
                ) && piece_exact(orig, addb, new_pieces@[jj]),
            decreases n - j,
        {
            let p = self.pieces[j];
            proof {
                lemma_text_push(orig, addb, new_pieces@, p);
                assert(piece_in_bounds(orig, addb, ps[j as int]) && piece_exact(
                    orig,
                    addb,
                    ps[j as int],
                ));
                assert(cat_from(orig, addb, ps, j as int) == piece_view(orig, addb, ps[j as int])
                    + cat_from(orig, addb, ps, j as int + 1));
                lemma_concat_assoc(
                    table_text(orig, addb, new_pieces@),
                    piece_view(orig, addb, p),
                    cat_from(orig, addb, ps, j as int + 1),
                );
            }
            new_pieces.push(p);
            j = j + 1;
        }
        self.pieces = new_pieces;
        proof {
            lemma_concat_empty(table_text(orig, addb, self.pieces@));
            assert(table_text(orig, addb, self.pieces@) == head + cat_from(orig, addb, ps, ei + 1));
            lemma_concat_assoc(sub1, lst, cat_from(orig, addb, ps, ei + 1));
            assert(self.text_view() == sub1 + sub2);
        }
    }

    /// Deletes `length` characters starting at document offset `start`.
    ///
    /// Fails with `RangeOutOfBounds`, changing nothing, when the range
    /// reaches beyond the end of the document.  Deleting an empty range
    /// leaves the table entirely unchanged.  Neither backing buffer
    /// changes: deleted pieces are dropped from the piece list, not from
    /// the buffers.
    #[verifier::rlimit(50)]
    pub fn delete(&mut self, start: usize, length: usize) -> (r: Result<(), TableError>)
        requires
            old(self).wf(),
        ensures
            final(self).wf(),
            r is Ok <==> start + length <= old(self).spec_len(),
            start + length > old(self).spec_len() ==> r == Result::<(), TableError>::Err(
                TableError::RangeOutOfBounds,
            ) && *final(self) == *old(self),
            start + length <= old(self).spec_len() ==> final(self).text_view() == old(
                self,
            ).text_view().subrange(0, start as int) + old(self).text_view().subrange(
                start + length,
                old(self).spec_len(),
            ),
            start + length <= old(self).spec_len() ==> final(self).spec_len() == old(
                self,
            ).spec_len() - length,
            start + length <= old(self).spec_len() ==> final(self).spec_lines() == old(
                self,
            ).spec_lines() - newline_count(
                old(self).text_view().subrange(start as int, start + length),
            ),
            length == 0 && start <= old(self).spec_len() ==> *final(self) == *old(self),
            final(self).orig_view() == old(self).orig_view(),
            final(self).add_view() == old(self).add_view(),
    {
        if length > self.total_length || start > self.total_length - length {
            return Result::Err(TableError::RangeOutOfBounds);
        }
        let ghost orig = self.original@;
        let ghost addb = self.add_buffer@;
        let ghost ps = self.pieces@;
        let ghost text0 = self.text_view();
        let ghost sub1 = text0.subrange(0, start as int);
        let ghost del = text0.subrange(start as int, start + length);
        let ghost sub2 = text0.subrange(start + length, text0.len() as int);
        if length == 0 {
            proof {
                crate::util::lemma_subrange_split(text0, start as int);
                assert(newline_count(del) == 0);
            }
            return Result::Ok(());
        }
        let end: usize = start + length;
        let start_piece_idx: usize = self.find_piece_containing_offset(start);
        let end_piece_idx: usize = self.find_piece_containing_offset(end);
        let deleted_lines: usize = self.count_line_breaks_in_range(start, end);
        let ghost si = start_piece_idx as int;
        let ghost ei = end_piece_idx as int;
        proof {
            let n = ps.len() as int;
            lemma_text_len(orig, addb, ps, n);
            if end == self.total_length {
                lemma_piece_at(orig, addb, ps, n - 1);
            }
            if si > ei {
                lemma_prefix_len_mono(ps, ei + 1, si);
                assert(false);
            }
            crate::util::lemma_subrange_split(text0, start as int);
            let rest = text0.subrange(start as int, text0.len() as int);
            lemma_newline_count_concat(sub1, rest);
            assert(rest == del + sub2) by {
                assert(rest =~= del + sub2);
            }
            lemma_newline_count_concat(del, sub2);
            lemma_newline_count_concat(sub1, sub2);
        }
        if start_piece_idx == end_piece_idx {
            self.delete_within_piece(start_piece_idx, start, end);
        } else {
            self.delete_across_pieces(start_piece_idx, end_piece_idx, start, end);
        }
        self.total_length = self.total_length - length;
        self.total_lines = self.total_lines - deleted_lines;
        if self.pieces.is_empty() {
            self.total_lines = 1;
        }
        self.mark_caches_dirty_from(start);
        if self.pieces.is_empty() {
            return Result::Ok(());
        }
        proof {
            assert(self.wf());
        }
        self.coalesce_pieces_around(start_piece_idx);
        Result::Ok(())
    }

    /// Inserts text at the given document offset.
    ///
    /// Fails with `OffsetOutOfBounds`, changing nothing, when the offset
    /// lies beyond the end of the document; otherwise the text is spliced
    /// in exactly at `offset`.  The original buffer is never touched, and
    /// the add buffer only ever grows, by exactly the inserted text.
    #[verifier::rlimit(50)]
    pub fn insert(&mut self, offset: usize, text: &str) -> (r: Result<(), TableError>)
        requires
            old(self).wf(),
            old(self).spec_len() + text@.len() < usize::MAX,
        ensures
            final(self).wf(),
            r is Ok <==> offset <= old(self).spec_len(),
            offset > old(self).spec_len() ==> r == Result::<(), TableError>::Err(
                TableError::OffsetOutOfBounds,
            ) && *final(self) == *old(self),
            offset <= old(self).spec_len() ==> final(self).text_view() == old(
                self,
            ).text_view().subrange(0, offset as int) + text@ + old(self).text_view().subrange(
                offset as int,
                old(self).spec_len(),
            ),
            offset <= old(self).spec_len() ==> final(self).spec_len() == old(self).spec_len()
                + text@.len(),
            offset <= old(self).spec_len() ==> final(self).spec_lines() == old(self).spec_lines()
                + newline_count(text@),
            final(self).orig_view() == old(self).orig_view(),
            offset <= old(self).spec_len() ==> final(self).add_view() == old(self).add_view()
                + text@,
    {
        if offset > self.total_length {
            return Result::Err(TableError::OffsetOutOfBounds);
        }
        let ghost orig = self.original@;
        let ghost addb0 = self.add_buffer@;
        let ghost ps0 = self.pieces@;
        let ghost text0 = self.text_view();
        let tlen: usize = text.unicode_len();
        let breaks: usize = count_line_breaks(text);
        let piece_idx: usize = self.find_piece_containing_offset(offset);
        let add_start: usize = self.add_buffer.as_str().unicode_len();
        self.add_buffer.append(text);
        let new_add_len: usize = self.add_buffer.as_str().unicode_len();
        let ghost addb = self.add_buffer@;
        proof {
            lemma_cat_stable_append(orig, addb0, text@, ps0, ps0.len() as int);
            assert(addb == addb0 + text@);
            assert(self.text_view() == text0);
            assert forall|j: int| 0 <= j < ps0.len() implies piece_in_bounds(
                orig,
                addb,
                #[trigger] ps0[j],
            ) && piece_exact(orig, addb, ps0[j]) by {
                assert(piece_in_bounds(orig, addb0, ps0[j]) && piece_exact(orig, addb0, ps0[j]));
            }
            assert(self.wf());
            crate::util::lemma_newline_count_le(text0);
            crate::util::lemma_newline_count_le(text@);
        }
        if tlen == 0 {
            proof {
                assert(addb =~= addb0);
                assert(text@ =~= Seq::<char>::empty());
                assert(text0.subrange(0, offset as int) + text@ + text0.subrange(
                    offset as int,
                    text0.len() as int,
                ) =~= text0);
            }
            self.mark_caches_dirty_from(offset);
            return Result::Ok(());
        }
        let new_piece = Piece {
            source: ID::Add,
            start: add_start,
            length: tlen,
            line_breaks: breaks,
        };
        proof {
            let n0 = ps0.len() as int;
            lemma_text_len(orig, addb, ps0, n0);
            if self.total_length > 0 && offset == self.total_length {
                lemma_piece_at(orig, addb, ps0, n0 - 1);
            }
        }
        let split_result: Option<usize> = self.split_piece_at(piece_idx, offset);
        let insert_idx: usize = match split_result {
            Option::Some(idx) => idx,
            Option::None => self.pieces.len(),
        };
        let ghost ps2 = self.pieces@;
        let ghost s2 = *self;
        proof {
            if split_result is None {
                lemma_prefix_len_at_least(ps0, ps0.len() as int);
                lemma_text_len(orig, addb, ps2, ps2.len() as int);
            }
            assert(prefix_len(ps2, insert_idx as int) == offset);
        }
        self.pieces.insert(insert_idx, new_piece);
        proof {
            let k = insert_idx as int;
            let ps3 = self.pieces@;
            assert(ps3 == ps2.insert(k, new_piece));
            let text2 = table_text(orig, addb, ps2);
            assert(text2 == text0);
            let sub1 = text0.subrange(0, offset as int);
            let sub2 = text0.subrange(offset as int, text0.len() as int);
            lemma_text_insert(orig, addb, ps2, k, new_piece);
            lemma_cat_to_is_prefix(orig, addb, ps2, k);
            assert(cat_to(orig, addb, ps2, k) == sub1);
            assert(cat_from(orig, addb, ps2, k) == sub2);
            assert(piece_view(orig, addb, new_piece) == text@) by {
                assert(piece_view(orig, addb, new_piece) =~= text@);
            }
            assert(table_text(orig, addb, ps3) == sub1 + text@ + sub2);
            assert forall|j: int| 0 <= j < ps3.len() implies piece_in_bounds(
                orig,
                addb,
                #[trigger] ps3[j],
            ) && piece_exact(orig, addb, ps3[j]) by {
                if j < k {
                    assert(ps3[j] == ps2[j]);
                    assert(piece_in_bounds(orig, addb, ps2[j]) && piece_exact(orig, addb, ps2[j]));
                } else if j == k {
                    assert(ps3[j] == new_piece);
                } else {
                    assert(ps3[j] == ps2[j - 1]);
                    assert(piece_in_bounds(orig, addb, ps2[j - 1]) && piece_exact(
                        orig,
                        addb,
                        ps2[j - 1],
                    ));
                }
            }
            crate::util::lemma_subrange_split(text0, offset as int);
            lemma_newline_count_concat(sub1, sub2);
            lemma_newline_count_concat(sub1 + text@, sub2);
            lemma_newline_count_concat(sub1, text@);
        }
        self.total_length = self.total_length + tlen;
        self.total_lines = self.total_lines + breaks;
        self.mark_caches_dirty_from(offset);
        self.coalesce_pieces_around(piece_idx);
        Result::Ok(())
    }

    /// Converts a document offset to a line and column position.
    ///
    /// Every offset up to and including the document length is answered
    /// (the document end is a valid cursor position); an offset beyond
    /// that is clamped to the document end, so it yields the end of the
    /// last line.  This operation never fails.
    pub fn offset_to_position(&self, offset: usize) -> (p: Position)
        requires
            self.wf(),
        ensures
            offset <= self.spec_len() ==> p.line == line_of(self.text_view(), offset as int)
                && p.column == column_of(self.text_view(), offset as int),
            offset > self.spec_len() ==> p.line == line_of(self.text_view(), self.spec_len())
                && p.column == column_of(self.text_view(), self.spec_len()),
    {
        let clamped: usize = if offset > self.total_length {
            self.total_length
        } else {
            offset
        };
        let txt: String = self.get_text(0, self.total_length);
        let s: &str = txt.as_str();
        let ghost t = self.text_view();
        proof {
            assert(t.subrange(0, self.total_length as int) =~= t);
            assert(t.subrange(0, 0) =~= Seq::<char>::empty());
        }
        let mut line: usize = 0;
        let mut line_start_off: usize = 0;
        let mut i: usize = 0;
        while i < clamped
            invariant
                s@ == t,
                clamped <= t.len() <= usize::MAX,
                i <= clamped,
                line_start_off <= i,
                line as int == line_of(t, i as int),
                line_start_off as int == line_start(t, line as int),
                forall|j: int| line_start_off <= j < i ==> t[j] != '\n',
            decreases clamped - i,
        {
            let c: char = s.get_char(i);
            proof {
                crate::util::lemma_newline_count_le(t.subrange(0, i as int));
                lemma_newline_count_push(t.subrange(0, i as int), t[i as int]);
                assert(t.subrange(0, i as int).push(t[i as int]) =~= t.subrange(0, i as int + 1));
                if t[i as int] == '\n' {
                    crate::util::lemma_next_newline_found(t, line_start_off as int, i as int);
                }
            }
            if c == '\n' {
                line = line + 1;
                line_start_off = i + 1;
            }
            i = i + 1;
        }
        Position { line, column: clamped - line_start_off }
    }

    /// Converts a line and column position to a document offset.
    ///
    /// A position beyond the document's actual content yields the
    /// document length.  This operation never fails.
    pub fn position_to_offset(&self, pos: Position) -> (r: usize)
        requires
            self.wf(),
        ensures
            r as int == position_offset(self.text_view(), pos.line as int, pos.column as int),
    {
        let n: usize = self.total_length;
        let txt: String = self.get_text(0, n);
        let s: &str = txt.as_str();
        let ghost t = self.text_view();
        proof {
            assert(t.subrange(0, n as int) =~= t);
            assert(t.subrange(0, 0) =~= Seq::<char>::empty());
        }
        let mut line: usize = 0;
        let mut line_start_off: usize = 0;
        let mut off: usize = 0;
        while off < n
            invariant
                s@ == t,
                t == self.text_view(),
                n == t.len(),
                off <= n,
                line_start_off <= off,
                line as int == line_of(t, off as int),
                line_start_off as int == line_start(t, line as int),
                forall|j: int| line_start_off <= j < off ==> t[j] != '\n',
                forall|o: int|
                    0 <= o < off ==> !(line_of(t, o) == pos.line as int && column_of(t, o)
                        == pos.column as int),
            decreases n - off,
        {
            if line == pos.line && off - line_start_off == pos.column {
                proof {
                    crate::util::lemma_newline_count_prefix_le(t, off as int);
                    crate::util::lemma_next_newline_ge(t, line_start_off as int, off as int);
                }
                return off;
            }
            let c: char = s.get_char(off);
            proof {
                crate::util::lemma_newline_count_le(t.subrange(0, off as int));
                lemma_newline_count_push(t.subrange(0, off as int), t[off as int]);
                assert(t.subrange(0, off as int).push(t[off as int]) =~= t.subrange(
                    0,
                    off as int + 1,
                ));
                if t[off as int] == '\n' {
                    crate::util::lemma_next_newline_found(t, line_start_off as int, off as int);
                }
            }
            if c == '\n' {
                line = line + 1;
                line_start_off = off + 1;
            }
            off = off + 1;
        }
        proof {
            let li = pos.line as int;
            let ci = pos.column as int;
            if li <= newline_count(t) {
                crate::util::lemma_line_start_props(t, li);
                let ls = line_start(t, li);
                crate::util::lemma_next_newline_props(t, ls);
                let le = next_newline(t, ls);
                if ci <= le - ls {
                    if ls + ci < t.len() {
                        crate::util::lemma_position_roundtrip(t, li, ci);
                        assert(false);
                    }
                }
            }
        }
        n
    }

    /// Marks the caches as dirty from a given offset.
    fn mark_caches_dirty_from(&mut self, offset: usize)
        ensures
            final(self).original@ == old(self).original@,
            final(self).add_buffer@ == old(self).add_buffer@,
            final(self).pieces@ == old(self).pieces@,
            final(self).total_length == old(self).total_length,
            final(self).total_lines == old(self).total_lines,
    {
        self.line_cache_dirty = true;
        self.char_cache_dirty_from = offset;
    }

    /// Rebuilds the line-offset cache from the pieces.
    fn rebuild_caches(&mut self)
        requires
            old(self).wf(),
        ensures
            final(self).wf(),
            final(self).original@ == old(self).original@,
            final(self).add_buffer@ == old(self).add_buffer@,
            final(self).pieces@ == old(self).pieces@,
            final(self).total_length == old(self).total_length,
            final(self).total_lines == old(self).total_lines,
    {
        self.line_cache.clear();
        let ghost ps = self.pieces@;
        let mut current_offset: usize = 0;
        let mut current_line: usize = 0;
        let mut piece_idx: usize = 0;
        let n: usize = self.pieces.len();
        while piece_idx < n
            invariant
                self.wf(),
                self.original@ == old(self).original@,
                self.add_buffer@ == old(self).add_buffer@,
                self.pieces@ == old(self).pieces@,
                self.total_length == old(self).total_length,
                self.total_lines == old(self).total_lines,
                n == self.pieces@.len(),
                ps == self.pieces@,
                piece_idx <= n,
                current_offset == prefix_len(ps, piece_idx as int),
                current_line <= current_offset,
                current_offset <= self.total_length,
            decreases n - piece_idx,
        {
            let piece = self.pieces[piece_idx];
            if current_line % 64 == 0 {
                self.line_cache.push(
                    Info {
                        piece_idx,
                        offset_in_piece: 0,
                        abs_offset: current_offset,
                        line_number: current_line,
                    },
                );
            }
            proof {
                lemma_prefix_len_mono(ps, piece_idx as int + 1, ps.len() as int);
                lemma_cat_to_len(self.original@, self.add_buffer@, ps, ps.len() as int);
                crate::util::lemma_newline_count_le(
                    piece_view(self.original@, self.add_buffer@, ps[piece_idx as int]),
                );
            }
            current_offset = current_offset + piece.length;
            current_line = current_line + piece.line_breaks;
            piece_idx = piece_idx + 1;
        }
        self.line_cache_dirty = false;
        self.char_cache_dirty_from = usize::MAX;
    }
}

} // verus!
