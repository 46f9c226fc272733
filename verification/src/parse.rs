//! Parsing of the solver's output.
//!
//! The solver prints whitespace-separated tokens.  Tokens of the forms
//! `block_pos(x,y,z,label)` and `cell_value(x,y,z,label)` record the label of
//! a cell; `pipe_pos(x,y,z,d,d)` records a pipe's entry and exit directions,
//! each one of the letters `a`, `b`, `n`, `s`, `e`, `w`.  Every other token is
//! ignored.  A later token for the same coordinate wins.  The first malformed
//! recognized token stops the parse with an error saying what was wrong.

use vstd::prelude::*;
use vstd::slice::slice_subrange;
use vstd::slice::slice_to_vec;
use crate::direction::Direction;
use crate::direction::dir_of_bytes;
use crate::layout::Coord;
use crate::layout::CoordMap;
use crate::layout::Positions;

verus! {

/// Why the solver output was rejected.
#[derive(PartialEq, Eq, Structural, Clone, Copy, Debug)]
pub enum ParseError {
    /// A recognized atom does not close with `)` right after its fields.
    UnterminatedAtom,
    /// An atom has fewer comma-separated fields than its form needs.
    MissingField,
    /// A coordinate field is not an unsigned decimal number that fits.
    BadInteger,
    /// A direction field is not one of the six direction letters.
    BadDirection,
}

/// The two coordinate-keyed tables a solver line builds: each cell's label,
/// and the pipe directions of the cells that carry one.
pub type LayoutModel = (Map<Coord, Seq<u8>>, Map<Coord, (Direction, Direction)>);

/// The tables before any token has been read.
pub open spec fn empty_model() -> LayoutModel {
    (Map::empty(), Map::empty())
}

/// The byte sequences a coordinate table of byte vectors holds.
pub open spec fn blocks_model(m: Map<Coord, Vec<u8>>) -> Map<Coord, Seq<u8>> {
    m.map_values(|v: Vec<u8>| v@)
}

// ---------------------------------------------------------------------------
// Whitespace tokenization
// ---------------------------------------------------------------------------

/// The token separators: space, newline, carriage return, tab.
pub open spec fn is_ws(b: u8) -> bool {
    b == 32 || b == 10 || b == 13 || b == 9
}

/// Length of the maximal separator-free prefix of `s`.
pub open spec fn token_end(s: Seq<u8>) -> int
    decreases s.len(),
{
    if s.len() == 0 || is_ws(s[0]) {
        0
    } else {
        1 + token_end(s.skip(1))
    }
}

proof fn lemma_token_end(s: Seq<u8>)
    ensures
        0 <= token_end(s) <= s.len(),
        forall|j: int| 0 <= j < token_end(s) ==> !is_ws(#[trigger] s[j]),
        token_end(s) < s.len() ==> is_ws(s[token_end(s)]),
    decreases s.len(),
{
    if s.len() == 0 || is_ws(s[0]) {
    } else {
        lemma_token_end(s.skip(1));
        assert forall|j: int| 0 <= j < token_end(s) implies !is_ws(#[trigger] s[j]) by {
            if j > 0 {
                assert(s[j] == s.skip(1)[j - 1]);
            }
        }
        if token_end(s) < s.len() {
            assert(s[token_end(s)] == s.skip(1)[token_end(s.skip(1))]);
        }
    }
}

proof fn lemma_token_end_is(s: Seq<u8>, e: int)
    requires
        0 <= e <= s.len(),
        forall|j: int| 0 <= j < e ==> !is_ws(#[trigger] s[j]),
        e < s.len() ==> is_ws(s[e]),
    ensures
        token_end(s) == e,
    decreases e,
{
    if e == 0 {
    } else {
        assert(!is_ws(s[0]));
        assert forall|j: int| 0 <= j < e - 1 implies !is_ws(#[trigger] s.skip(1)[j]) by {
            assert(s.skip(1)[j] == s[j + 1]);
        }
        if e - 1 < s.skip(1).len() {
            assert(s.skip(1)[e - 1] == s[e]);
        }
        lemma_token_end_is(s.skip(1), e - 1);
    }
}

/// The whitespace-separated tokens of `s`, in order.
pub open spec fn tokens_of(s: Seq<u8>) -> Seq<Seq<u8>>
    decreases s.len(),
    via tokens_of_dec
{
    if s.len() == 0 {
        Seq::empty()
    } else if is_ws(s[0]) {
        tokens_of(s.skip(1))
    } else {
        seq![s.take(token_end(s))] + tokens_of(s.skip(token_end(s)))
    }
}

#[via_fn]
proof fn tokens_of_dec(s: Seq<u8>) {
    if s.len() > 0 && !is_ws(s[0]) {
        lemma_token_end(s);
    }
}

/// The byte sequences a list of byte vectors holds.
pub open spec fn views_of(ts: Seq<Vec<u8>>) -> Seq<Seq<u8>> {
    ts.map_values(|t: Vec<u8>| t@)
}

fn is_ws_exec(b: u8) -> (r: bool)
    ensures
        r == is_ws(b),
{
    b == 32 || b == 10 || b == 13 || b == 9
}

/// Splits `s` into its whitespace-separated tokens.
pub fn tokenize(s: &[u8]) -> (r: Vec<Vec<u8>>)
    ensures
        views_of(r@) == tokens_of(s@),
{
    let mut toks: Vec<Vec<u8>> = Vec::new();
    let mut i: usize = 0;
    proof {
        assert(s@.skip(0) =~= s@);
        assert(views_of(toks@) + tokens_of(s@) =~= tokens_of(s@));
    }
    while i < s.len()
        invariant
            i <= s@.len(),
            views_of(toks@) + tokens_of(s@.skip(i as int)) == tokens_of(s@),
        decreases s@.len() - i,
    {
        if is_ws_exec(s[i]) {
            proof {
                assert(s@.skip(i as int).skip(1) =~= s@.skip(i + 1));
            }
            i = i + 1;
        } else {
            let start = i;
            let mut j = i;
            while j < s.len() && !is_ws_exec(s[j])
                invariant
                    start <= j <= s@.len(),
                    start < s@.len(),
                    !is_ws(s@[start as int]),
                    forall|k: int| start <= k < j ==> !is_ws(#[trigger] s@[k]),
                decreases s@.len() - j,
            {
                j = j + 1;
            }
            let tok = slice_to_vec(slice_subrange(s, start, j));
            proof {
                let tail = s@.skip(start as int);
                assert forall|k: int| 0 <= k < j - start implies !is_ws(#[trigger] tail[k]) by {
                    assert(tail[k] == s@[start + k]);
                }
                if j - start < tail.len() {
                    assert(tail[j - start] == s@[j as int]);
                }
                lemma_token_end_is(tail, j - start);
                assert(tail.take(j - start) =~= s@.subrange(start as int, j as int));
                assert(tail.skip(j - start) =~= s@.skip(j as int));
                assert(tokens_of(tail) == seq![tok@] + tokens_of(s@.skip(j as int)));
            }
            let ghost old_views = views_of(toks@);
            toks.push(tok);
            proof {
                assert(views_of(toks@) =~= old_views + seq![tok@]);
                assert((old_views + seq![tok@]) + tokens_of(s@.skip(j as int)) =~= old_views + (
                seq![tok@] + tokens_of(s@.skip(j as int))));
            }
            i = j;
        }
    }
    proof {
        assert(s@.skip(i as int) =~= Seq::<u8>::empty());
        assert(views_of(toks@) + tokens_of(s@.skip(i as int)) =~= views_of(toks@));
    }
    toks
}

// ---------------------------------------------------------------------------
// Comma-separated fields
// ---------------------------------------------------------------------------

/// Index of the first comma of `s`, or its length if there is none.
pub open spec fn first_comma(s: Seq<u8>) -> int
    decreases s.len(),
{
    if s.len() == 0 || s[0] == 44 {
        0
    } else {
        1 + first_comma(s.skip(1))
    }
}

proof fn lemma_first_comma(s: Seq<u8>)
    ensures
        0 <= first_comma(s) <= s.len(),
        first_comma(s) < s.len() ==> s[first_comma(s)] == 44,
    decreases s.len(),
{
    if s.len() == 0 || s[0] == 44 {
    } else {
        lemma_first_comma(s.skip(1));
        if first_comma(s) < s.len() {
            assert(s[first_comma(s)] == s.skip(1)[first_comma(s.skip(1))]);
        }
    }
}

proof fn lemma_first_comma_is(s: Seq<u8>, e: int)
    requires
        0 <= e <= s.len(),
        forall|j: int| 0 <= j < e ==> #[trigger] s[j] != 44,
        e < s.len() ==> s[e] == 44,
    ensures
        first_comma(s) == e,
    decreases e,
{
    if e == 0 {
    } else {
        assert(s[0] != 44);
        assert forall|j: int| 0 <= j < e - 1 implies #[trigger] s.skip(1)[j] != 44 by {
            assert(s.skip(1)[j] == s[j + 1]);
        }
        if e - 1 < s.skip(1).len() {
            assert(s.skip(1)[e - 1] == s[e]);
        }
        lemma_first_comma_is(s.skip(1), e - 1);
    }
}

/// The comma-separated fields of `s`: one more field than there are commas,
/// and a field may be empty.
pub open spec fn split_commas(s: Seq<u8>) -> Seq<Seq<u8>>
    decreases s.len(),
    via split_commas_dec
{
    if first_comma(s) == s.len() {
        seq![s]
    } else {
        seq![s.take(first_comma(s))] + split_commas(s.skip(first_comma(s) + 1))
    }
}

#[via_fn]
proof fn split_commas_dec(s: Seq<u8>) {
    lemma_first_comma(s);
}

proof fn lemma_split_commas_nonempty(s: Seq<u8>)
    ensures
        split_commas(s).len() >= 1,
{
    lemma_first_comma(s);
}

/// Splits `t` at every comma.
pub fn split_fields(t: &[u8]) -> (r: Vec<Vec<u8>>)
    ensures
        views_of(r@) == split_commas(t@),
{
    let mut out: Vec<Vec<u8>> = Vec::new();
    let mut i: usize = 0;
    proof {
        assert(t@.skip(0) =~= t@);
        assert(views_of(out@) + split_commas(t@) =~= split_commas(t@));
    }
    loop
        invariant_except_break
            i <= t@.len(),
            views_of(out@) + split_commas(t@.skip(i as int)) == split_commas(t@),
        ensures
            views_of(out@) == split_commas(t@),
        decreases t@.len() - i,
    {
        let mut j = i;
        while j < t.len() && t[j] != 44
            invariant
                i <= j <= t@.len(),
                forall|k: int| i <= k < j ==> #[trigger] t@[k] != 44,
            decreases t@.len() - j,
        {
            j = j + 1;
        }
        let field = slice_to_vec(slice_subrange(t, i, j));
        proof {
            let tail = t@.skip(i as int);
            assert forall|k: int| 0 <= k < j - i implies #[trigger] tail[k] != 44 by {
                assert(tail[k] == t@[i + k]);
            }
            if j - i < tail.len() {
                assert(tail[j - i] == t@[j as int]);
            }
            lemma_first_comma_is(tail, j - i);
            assert(tail.take(j - i) =~= t@.subrange(i as int, j as int));
        }
        let ghost old_views = views_of(out@);
        out.push(field);
        proof {
            assert(views_of(out@) =~= old_views + seq![field@]);
        }
        if j == t.len() {
            proof {
                let tail = t@.skip(i as int);
                assert(tail.take(j - i) =~= tail);
                assert(split_commas(tail) == seq![field@]);
                assert(old_views + seq![field@] =~= views_of(out@));
            }
            break;
        }
        proof {
            let tail = t@.skip(i as int);
            assert(tail.skip(j - i + 1) =~= t@.skip(j + 1));
            assert(split_commas(tail) == seq![field@] + split_commas(t@.skip(j + 1)));
            assert((old_views + seq![field@]) + split_commas(t@.skip(j + 1)) =~= old_views + (
            seq![field@] + split_commas(t@.skip(j + 1))));
        }
        i = j + 1;
    }
    out
}

// ---------------------------------------------------------------------------
// Decimal numbers
// ---------------------------------------------------------------------------

/// `b` is an ASCII decimal digit.
pub open spec fn is_digit(b: u8) -> bool {
    48 <= b <= 57
}

/// Every byte of `s` is a digit.
pub open spec fn all_digits(s: Seq<u8>) -> bool {
    forall|j: int| 0 <= j < s.len() ==> is_digit(#[trigger] s[j])
}

/// The value of `s` read as a decimal numeral.
pub open spec fn dec_val(s: Seq<u8>) -> int
    decreases s.len(),
{
    if s.len() == 0 {
        0
    } else {
        dec_val(s.drop_last()) * 10 + s.last() - 48
    }
}

/// `s` is a decimal numeral whose value fits the machine.
pub open spec fn num_ok(s: Seq<u8>) -> bool {
    s.len() > 0 && all_digits(s) && dec_val(s) <= usize::MAX
}

proof fn lemma_dec_val_nonneg(s: Seq<u8>)
    requires
        all_digits(s),
    ensures
        dec_val(s) >= 0,
    decreases s.len(),
{
    if s.len() > 0 {
        assert(all_digits(s.drop_last()));
        lemma_dec_val_nonneg(s.drop_last());
    }
}

proof fn lemma_dec_val_prefix_le(s: Seq<u8>, k: int)
    requires
        all_digits(s),
        0 <= k <= s.len(),
    ensures
        dec_val(s.take(k)) <= dec_val(s),
    decreases s.len(),
{
    if k == s.len() {
        assert(s.take(k) =~= s);
    } else {
        let prev = s.drop_last();
        assert(all_digits(prev));
        assert(prev.take(k) =~= s.take(k));
        lemma_dec_val_prefix_le(prev, k);
        lemma_dec_val_nonneg(prev);
    }
}

/// Reads an unsigned decimal numeral, exactly as far as `num_ok` allows one.
pub fn parse_usize(t: &[u8]) -> (r: Option<usize>)
    ensures
        num_ok(t@) ==> r == Some((dec_val(t@) as usize)),
        !num_ok(t@) ==> r == None::<usize>,
{
    if t.len() == 0 {
        return None;
    }
    let mut acc: usize = 0;
    let mut i: usize = 0;
    while i < t.len()
        invariant
            i <= t@.len(),
            t@.len() > 0,
            all_digits(t@.take(i as int)),
            acc == dec_val(t@.take(i as int)),
        decreases t@.len() - i,
    {
        let b = t[i];
        if b < 48 || b > 57 {
            assert(!all_digits(t@));
            return None;
        }
        let d = b - 48;
        let wide: u128 = (acc as u128) * 10 + (d as u128);
        proof {
            assert(t@.take(i + 1).drop_last() =~= t@.take(i as int));
            assert(t@.take(i + 1).last() == t@[i as int]);
            assert(wide == dec_val(t@.take(i + 1)));
        }
        if wide > (usize::MAX as u128) {
            proof {
                if all_digits(t@) {
                    lemma_dec_val_prefix_le(t@, i + 1);
                }
            }
            return None;
        }
        acc = wide as usize;
        i = i + 1;
    }
    proof {
        assert(t@.take(i as int) =~= t@);
    }
    Some(acc)
}

// ---------------------------------------------------------------------------
// Atoms
// ---------------------------------------------------------------------------

/// `t` begins with `block_pos(`.
pub open spec fn has_block_prefix(t: Seq<u8>) -> bool {
    &&& t.len() >= 10
    &&& t[0] == 98
    &&& t[1] == 108
    &&& t[2] == 111
    &&& t[3] == 99
    &&& t[4] == 107
    &&& t[5] == 95
    &&& t[6] == 112
    &&& t[7] == 111
    &&& t[8] == 115
    &&& t[9] == 40
}

/// `t` begins with `cell_value(`.
pub open spec fn has_cell_prefix(t: Seq<u8>) -> bool {
    &&& t.len() >= 11
    &&& t[0] == 99
    &&& t[1] == 101
    &&& t[2] == 108
    &&& t[3] == 108
    &&& t[4] == 95
    &&& t[5] == 118
    &&& t[6] == 97
    &&& t[7] == 108
    &&& t[8] == 117
    &&& t[9] == 101
    &&& t[10] == 40
}

/// `t` begins with `pipe_pos(`.
pub open spec fn has_pipe_prefix(t: Seq<u8>) -> bool {
    &&& t.len() >= 9
    &&& t[0] == 112
    &&& t[1] == 105
    &&& t[2] == 112
    &&& t[3] == 101
    &&& t[4] == 95
    &&& t[5] == 112
    &&& t[6] == 111
    &&& t[7] == 115
    &&& t[8] == 40
}

fn has_block_prefix_exec(t: &[u8]) -> (r: bool)
    ensures
        r == has_block_prefix(t@),
{
    t.len() >= 10 && t[0] == 98 && t[1] == 108 && t[2] == 111 && t[3] == 99 && t[4] == 107 && t[5]
        == 95 && t[6] == 112 && t[7] == 111 && t[8] == 115 && t[9] == 40
}

fn has_cell_prefix_exec(t: &[u8]) -> (r: bool)
    ensures
        r == has_cell_prefix(t@),
{
    t.len() >= 11 && t[0] == 99 && t[1] == 101 && t[2] == 108 && t[3] == 108 && t[4] == 95 && t[5]
        == 118 && t[6] == 97 && t[7] == 108 && t[8] == 117 && t[9] == 101 && t[10] == 40
}

fn has_pipe_prefix_exec(t: &[u8]) -> (r: bool)
    ensures
        r == has_pipe_prefix(t@),
{
    t.len() >= 9 && t[0] == 112 && t[1] == 105 && t[2] == 112 && t[3] == 101 && t[4] == 95 && t[5]
        == 112 && t[6] == 111 && t[7] == 115 && t[8] == 40
}

/// The coordinate named by the first three fields.
pub open spec fn coord_of_fields(fs: Seq<Seq<u8>>) -> Coord {
    Coord {
        x: dec_val(fs[0]) as usize,
        y: dec_val(fs[1]) as usize,
        z: dec_val(fs[2]) as usize,
    }
}

/// What a `block_pos`/`cell_value` atom whose prefix has length `plen` does
/// to the tables: record the fourth field as the cell's label, or fail the
/// way the field that is checked first fails.
pub open spec fn spec_block_like(m: LayoutModel, t: Seq<u8>, plen: int) -> Result<
    LayoutModel,
    ParseError,
> {
    if !(t.len() > plen && t[t.len() - 1] == 41) {
        Err(ParseError::UnterminatedAtom)
    } else {
        let fs = split_commas(t.subrange(plen, t.len() - 1));
        if !num_ok(fs[0]) {
            Err(ParseError::BadInteger)
        } else if fs.len() < 2 {
            Err(ParseError::MissingField)
        } else if !num_ok(fs[1]) {
            Err(ParseError::BadInteger)
        } else if fs.len() < 3 {
            Err(ParseError::MissingField)
        } else if !num_ok(fs[2]) {
            Err(ParseError::BadInteger)
        } else if fs.len() < 4 {
            Err(ParseError::MissingField)
        } else {
            Ok((m.0.insert(coord_of_fields(fs), fs[3]), m.1))
        }
    }
}

/// What a `pipe_pos` atom does to the tables: record the two direction
/// fields for the coordinate, or fail the way the field that is checked
/// first fails.
pub open spec fn spec_pipe_like(m: LayoutModel, t: Seq<u8>) -> Result<LayoutModel, ParseError> {
    if !(t.len() > 9 && t[t.len() - 1] == 41) {
        Err(ParseError::UnterminatedAtom)
    } else {
        let fs = split_commas(t.subrange(9, t.len() - 1));
        if !num_ok(fs[0]) {
            Err(ParseError::BadInteger)
        } else if fs.len() < 2 {
            Err(ParseError::MissingField)
        } else if !num_ok(fs[1]) {
            Err(ParseError::BadInteger)
        } else if fs.len() < 3 {
            Err(ParseError::MissingField)
        } else if !num_ok(fs[2]) {
            Err(ParseError::BadInteger)
        } else if fs.len() < 4 {
            Err(ParseError::MissingField)
        } else {
            match dir_of_bytes(fs[3]) {
                None => Err(ParseError::BadDirection),
                Some(din) => {
                    if fs.len() < 5 {
                        Err(ParseError::MissingField)
                    } else {
                        match dir_of_bytes(fs[4]) {
                            None => Err(ParseError::BadDirection),
                            Some(dout) => Ok((m.0, m.1.insert(coord_of_fields(fs), (din, dout)))),
                        }
                    }
                },
            }
        }
    }
}

/// What one token does to the tables; a token of no recognized form leaves
/// them as they are.
pub open spec fn apply_token_spec(m: LayoutModel, t: Seq<u8>) -> Result<LayoutModel, ParseError> {
    if has_block_prefix(t) {
        spec_block_like(m, t, 10)
    } else if has_cell_prefix(t) {
        spec_block_like(m, t, 11)
    } else if has_pipe_prefix(t) {
        spec_pipe_like(m, t)
    } else {
        Ok(m)
    }
}

/// Folds the tokens over the tables, stopping at the first failure.
pub open spec fn parse_tokens_from(m: LayoutModel, toks: Seq<Seq<u8>>) -> Result<
    LayoutModel,
    ParseError,
> decreases toks.len(),
{
    if toks.len() == 0 {
        Ok(m)
    } else {
        match apply_token_spec(m, toks[0]) {
            Err(e) => Err(e),
            Ok(m2) => parse_tokens_from(m2, toks.skip(1)),
        }
    }
}

/// The tables a whole solver line describes, or the first failure in it.
pub open spec fn spec_parse(s: Seq<u8>) -> Result<LayoutModel, ParseError> {
    parse_tokens_from(empty_model(), tokens_of(s))
}

fn apply_token(p: &mut Positions, t: &[u8]) -> (r: Result<(), ParseError>)
    ensures
        match r {
            Ok(u) => apply_token_spec((blocks_model(old(p).positions@), old(p).pipe_positions@), t@)
                == Ok::<LayoutModel, ParseError>(
                (blocks_model(final(p).positions@), final(p).pipe_positions@),
            ),
            Err(e) => apply_token_spec((blocks_model(old(p).positions@), old(p).pipe_positions@), t@)
                == Err::<LayoutModel, ParseError>(e) && blocks_model(final(p).positions@) == blocks_model(old(p).positions@)
                && final(p).pipe_positions@ == old(p).pipe_positions@,
        },
{
    let is_block = has_block_prefix_exec(t);
    let is_cell = has_cell_prefix_exec(t);
    if is_block || is_cell {
        let plen: usize = if is_block { 10 } else { 11 };
        if !(t.len() > plen && t[t.len() - 1] == 41) {
            return Err(ParseError::UnterminatedAtom);
        }
        let interior = slice_subrange(t, plen, t.len() - 1);
        let fields = split_fields(interior);
        proof {
            lemma_split_commas_nonempty(interior@);
            assert(fields@.len() >= 1);
            assert(fields@[0]@ == split_commas(interior@)[0]);
        }
        let x = match parse_usize(fields[0].as_slice()) {
            Some(v) => v,
            None => { return Err(ParseError::BadInteger) },
        };
        if fields.len() < 2 {
            return Err(ParseError::MissingField);
        }
        let y = match parse_usize(fields[1].as_slice()) {
            Some(v) => v,
            None => { return Err(ParseError::BadInteger) },
        };
        if fields.len() < 3 {
            return Err(ParseError::MissingField);
        }
        let z = match parse_usize(fields[2].as_slice()) {
            Some(v) => v,
            None => { return Err(ParseError::BadInteger) },
        };
        if fields.len() < 4 {
            return Err(ParseError::MissingField);
        }
        let label = slice_to_vec(fields[3].as_slice());
        let ghost lv = label@;
        p.positions.insert(Coord { x, y, z }, label);
        proof {
            assert(blocks_model(p.positions@) =~= blocks_model(old(p).positions@).insert(
                Coord { x, y, z },
                lv,
            ));
        }
        return Ok(());
    }
    let is_pipe = has_pipe_prefix_exec(t);
    if is_pipe {
        if !(t.len() > 9 && t[t.len() - 1] == 41) {
            return Err(ParseError::UnterminatedAtom);
        }
        let interior = slice_subrange(t, 9, t.len() - 1);
        let fields = split_fields(interior);
        proof {
            lemma_split_commas_nonempty(interior@);
        }
        let x = match parse_usize(fields[0].as_slice()) {
            Some(v) => v,
            None => { return Err(ParseError::BadInteger) },
        };
        if fields.len() < 2 {
            return Err(ParseError::MissingField);
        }
        let y = match parse_usize(fields[1].as_slice()) {
            Some(v) => v,
            None => { return Err(ParseError::BadInteger) },
        };
        if fields.len() < 3 {
            return Err(ParseError::MissingField);
        }
        let z = match parse_usize(fields[2].as_slice()) {
            Some(v) => v,
            None => { return Err(ParseError::BadInteger) },
        };
        if fields.len() < 4 {
            return Err(ParseError::MissingField);
        }
        let din = match Direction::from_bytes(fields[3].as_slice()) {
            Some(d) => d,
            None => { return Err(ParseError::BadDirection) },
        };
        if fields.len() < 5 {
            return Err(ParseError::MissingField);
        }
        let dout = match Direction::from_bytes(fields[4].as_slice()) {
            Some(d) => d,
            None => { return Err(ParseError::BadDirection) },
        };
        p.pipe_positions.insert(Coord { x, y, z }, (din, dout));
        return Ok(());
    }
    Ok(())
}

/// Parses a whole solver line into the two coordinate tables, or reports the
/// first malformed recognized token.
pub fn parse_sol(input: &[u8]) -> (r: Result<Positions, ParseError>)
    ensures
        match r {
            Ok(p) => spec_parse(input@) == Ok::<LayoutModel, ParseError>(
                (blocks_model(p.positions@), p.pipe_positions@),
            ),
            Err(e) => spec_parse(input@) == Err::<LayoutModel, ParseError>(e),
        },
{
    let toks = tokenize(input);
    let mut p = Positions { positions: CoordMap::new(), pipe_positions: CoordMap::new() };
    let n = toks.len();
    let mut i: usize = 0;
    proof {
        assert(tokens_of(input@).skip(0) =~= tokens_of(input@));
        assert(blocks_model(p.positions@) =~= Map::<Coord, Seq<u8>>::empty());
    }
    while i < n
        invariant
            i <= n,
            n == toks@.len(),
            views_of(toks@) == tokens_of(input@),
            spec_parse(input@) == parse_tokens_from(
                (blocks_model(p.positions@), p.pipe_positions@),
                tokens_of(input@).skip(i as int),
            ),
        decreases n - i,
    {
        let ghost before = (blocks_model(p.positions@), p.pipe_positions@);
        let ghost rest = tokens_of(input@).skip(i as int);
        proof {
            assert(rest.len() > 0);
            assert(rest[0] == views_of(toks@)[i as int]);
            assert(views_of(toks@)[i as int] == toks@[i as int]@);
        }
        match apply_token(&mut p, toks[i].as_slice()) {
            Ok(u) => {},
            Err(e) => {
                proof {
                    assert(parse_tokens_from(before, rest) == Err::<LayoutModel, ParseError>(e));
                }
                return Err(e);
            },
        }
        proof {
            assert(rest.skip(1) =~= tokens_of(input@).skip(i + 1));
        }
        i = i + 1;
    }
    proof {
        assert(tokens_of(input@).skip(i as int) =~= Seq::<Seq<u8>>::empty());
    }
    Ok(p)
}

} // verus!
