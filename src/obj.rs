//! The mesh parser: lexing, directive dispatch, vertex and face handling,
//! triangulation, and the packed output buffer.
use vstd::prelude::*;

use crate::error::{Error, ErrorKind, NumericKind};
use crate::text::{
    chars_of, fields, lines, parse_index, parse_index_chars, split_ascii_ws, split_lines, split_slash,
    string_from_chars, tokens, trim, trim_chars,
};

verus! {

/// One emitted corner: a position and a normal, each three 32-bit float bit patterns.
#[derive(Clone, Copy, Debug, PartialEq, Eq)]
pub struct Vertex {
    pub position: [u32; 3],
    pub normal: [u32; 3],
}

impl Vertex {
    pub fn new(position: [u32; 3], normal: [u32; 3]) -> (r: Vertex)
        ensures
            r.position == position,
            r.normal == normal,
    {
        Vertex { position, normal }
    }

    pub fn normal(&self) -> (r: &[u32; 3])
        ensures
            *r == self.normal,
    {
        &self.normal
    }

    pub fn position(&self) -> (r: &[u32; 3])
        ensures
            *r == self.position,
    {
        &self.position
    }
}

/// The indices of one face corner; `None` where the field is empty or absent.
#[derive(Clone, Copy, Debug, PartialEq, Eq)]
pub struct Corner {
    pub position: Option<usize>,
    pub texcoord: Option<usize>,
    pub normal: Option<usize>,
}

/// The state of a parse after some lines.
pub struct ParseState {
    pub vertices: Seq<[u32; 3]>,
    pub normals: Seq<[u32; 3]>,
    pub records: Seq<Vertex>,
    /// How many coordinate values the lines so far have taken.
    pub used: nat,
}

/// A failure as the model states it.
pub struct Failure {
    pub kind: ErrorKind,
    pub index: int,
    pub line: Seq<char>,
}

pub open spec fn initial_state() -> ParseState {
    ParseState { vertices: seq![], normals: seq![], records: seq![], used: 0 }
}

pub open spec fn is_vertex_directive(d: Seq<char>) -> bool {
    d == seq!['v']
}

pub open spec fn is_normal_directive(d: Seq<char>) -> bool {
    d == seq!['v', 'n']
}

pub open spec fn is_face_directive(d: Seq<char>) -> bool {
    d == seq!['f']
}

/// The tokens of a line: its trimmed text split at ASCII whitespace.
pub open spec fn line_tokens(line: Seq<char>) -> Seq<Seq<char>> {
    tokens(trim(line))
}

/// A non-empty line that gives a vertex or a normal its three coordinate tokens.
pub open spec fn is_coordinate_line(line: Seq<char>) -> bool {
    let t = line_tokens(line);
    line.len() > 0 && t.len() == 4 && (is_vertex_directive(t[0]) || is_normal_directive(t[0]))
}

/// The coordinate tokens that the first `n` lines hold, in order.
pub open spec fn coordinate_tokens_upto(ls: Seq<Seq<char>>, n: int) -> Seq<Seq<char>>
    decreases n,
{
    if n <= 0 {
        seq![]
    } else if is_coordinate_line(ls[n - 1]) {
        coordinate_tokens_upto(ls, n - 1) + line_tokens(ls[n - 1]).skip(1)
    } else {
        coordinate_tokens_upto(ls, n - 1)
    }
}

/// Every coordinate token of `input`: the three arguments of each `v` and
/// `vn` line that has three, in input order.
pub open spec fn coordinate_tokens_of(input: Seq<char>) -> Seq<Seq<char>> {
    coordinate_tokens_upto(lines(input), lines(input).len() as int)
}

/// What one field of a corner token gives: `None` if it does not read as an
/// index, `Some(None)` if it is empty.
pub open spec fn field_index(f: Seq<char>) -> Option<Option<usize>> {
    if f.len() == 0 {
        Some(None)
    } else {
        match parse_index(f) {
            Some(n) => Some(Some(n)),
            None => None,
        }
    }
}

/// Every field of the corner token reads as an index or is empty.
pub open spec fn corner_fields_ok(t: Seq<char>) -> bool {
    forall|k: int| 0 <= k < fields(t).len() ==> #[trigger] field_index(fields(t)[k]) is Some
}

pub open spec fn field_at(t: Seq<char>, k: int) -> Option<usize> {
    if k < fields(t).len() {
        field_index(fields(t)[k])->0
    } else {
        None
    }
}

/// The corner that a token describes.
pub open spec fn corner_of(t: Seq<char>) -> Corner {
    Corner { position: field_at(t, 0), texcoord: field_at(t, 1), normal: field_at(t, 2) }
}

/// The entry that a 1-based index names in a pool, if it names one.
pub open spec fn lookup(pool: Seq<[u32; 3]>, i: Option<usize>) -> Option<[u32; 3]> {
    match i {
        Some(n) => if 1 <= n && n <= pool.len() {
            Some(pool[n - 1])
        } else {
            None
        },
        None => None,
    }
}

pub open spec fn resolvable(st: ParseState, c: Corner) -> bool {
    lookup(st.vertices, c.position) is Some && lookup(st.normals, c.normal) is Some
}

pub open spec fn record_of(st: ParseState, c: Corner) -> Vertex {
    Vertex { position: lookup(st.vertices, c.position)->0, normal: lookup(st.normals, c.normal)->0 }
}

/// The order in which a face's corners are emitted: `[0, 2, 1]` for a
/// triangle, `[0, 2, 1, 3, 2, 0]` for a quad.
pub open spec fn emission_order(n: nat) -> Seq<int> {
    if n == 3 {
        seq![0, 2, 1]
    } else {
        seq![0, 2, 1, 3, 2, 0]
    }
}

/// The records a face emits.
pub open spec fn face_records(st: ParseState, corners: Seq<Corner>) -> Seq<Vertex> {
    emission_order(corners.len()).map_values(|k: int| record_of(st, corners[k]))
}

/// The three coordinates that the next coordinate line takes, if all of them read.
pub open spec fn next_coordinates(st: ParseState, coords: Seq<Option<u32>>) -> Option<[u32; 3]> {
    let u = st.used as int;
    if coords[u] is Some && coords[u + 1] is Some && coords[u + 2] is Some {
        Some([coords[u]->0, coords[u + 1]->0, coords[u + 2]->0])
    } else {
        None
    }
}

/// The effect of line `index`, with text `line`, on state `st`; `coords`
/// holds what each coordinate token reads as, `None` where it does not read.
pub open spec fn step(st: ParseState, index: int, line: Seq<char>, coords: Seq<Option<u32>>) -> Result<
    ParseState,
    Failure,
> {
    let t = line_tokens(line);
    let fail = |k: ErrorKind| Failure { kind: k, index, line };
    if line.len() == 0 {
        Ok(st)
    } else if t.len() == 0 {
        Err(fail(ErrorKind::InvalidFormat))
    } else if is_vertex_directive(t[0]) || is_normal_directive(t[0]) {
        if t.len() != 4 {
            Err(fail(ErrorKind::InvalidFormat))
        } else {
            match next_coordinates(st, coords) {
                None => Err(fail(ErrorKind::NumericParse(NumericKind::Float))),
                Some(p) => if is_vertex_directive(t[0]) {
                    Ok(ParseState { vertices: st.vertices.push(p), used: st.used + 3, ..st })
                } else {
                    Ok(ParseState { normals: st.normals.push(p), used: st.used + 3, ..st })
                },
            }
        }
    } else if is_face_directive(t[0]) {
        let args = t.skip(1);
        if args.len() != 3 && args.len() != 4 {
            Err(fail(ErrorKind::InvalidFormat))
        } else if exists|k: int| 0 <= k < args.len() && !corner_fields_ok(#[trigger] args[k]) {
            Err(fail(ErrorKind::NumericParse(NumericKind::Int)))
        } else {
            let corners = args.map_values(|a: Seq<char>| corner_of(a));
            if forall|k: int| 0 <= k < corners.len() ==> resolvable(st, #[trigger] corners[k]) {
                Ok(ParseState { records: st.records + face_records(st, corners), ..st })
            } else {
                Err(fail(ErrorKind::IndexOutOfRange))
            }
        }
    } else {
        Ok(st)
    }
}

/// The outcome of the first `n` lines of `ls`.
pub open spec fn run(ls: Seq<Seq<char>>, coords: Seq<Option<u32>>, n: nat) -> Result<
    ParseState,
    Failure,
>
    decreases n,
{
    if n == 0 {
        Ok(initial_state())
    } else {
        match run(ls, coords, (n - 1) as nat) {
            Ok(st) => step(st, n - 1, ls[n - 1], coords),
            Err(e) => Err(e),
        }
    }
}


/// The records that parsing `input` emits, or the failure that stops it.
pub open spec fn parse_result(input: Seq<char>, coords: Seq<Option<u32>>) -> Result<
    Seq<Vertex>,
    Failure,
> {
    let ls = lines(input);
    match run(ls, coords, ls.len()) {
        Ok(st) => Ok(st.records),
        Err(f) => Err(f),
    }
}

/// The six values of one record: its position, then its normal.
pub open spec fn record_floats(v: Vertex) -> Seq<u32> {
    seq![v.position[0], v.position[1], v.position[2], v.normal[0], v.normal[1], v.normal[2]]
}

/// The records laid out one after another, six values each.
pub open spec fn flatten(recs: Seq<Vertex>) -> Seq<u32>
    decreases recs.len(),
{
    if recs.len() == 0 {
        seq![]
    } else {
        flatten(recs.drop_last()) + record_floats(recs.last())
    }
}

pub open spec fn error_matches(e: Error, f: Failure) -> bool {
    e.kind == f.kind && e.index == f.index && e.line@ == f.line
}

/// `r` is what parsing `input` with coordinate readings `coords` returns:
/// the packed buffer of the emitted records, or the failure of the first
/// failing line.
pub open spec fn parse_outcome(r: Result<Obj, Error>, input: Seq<char>, coords: Seq<Option<u32>>) -> bool {
    match parse_result(input, coords) {
        Ok(recs) => r is Ok && r->Ok_0@ == flatten(recs),
        Err(f) => r is Err && error_matches(r->Err_0, f),
    }
}

/// A parsed mesh: the packed buffer of its emitted records.
pub struct Obj {
    data: Vec<u32>,
}

impl View for Obj {
    type V = Seq<u32>;

    closed spec fn view(&self) -> Seq<u32> {
        self.data@
    }
}

impl Obj {
    /// The packed buffer: record `i` has its position at `6i..6i+3` and its
    /// normal at `6i+3..6i+6`, as float bit patterns.
    pub fn as_slice(&self) -> (r: &[u32])
        ensures
            r@ == self@,
    {
        self.data.as_slice()
    }
}

/// The state of a parse in progress.
struct Pools {
    vertices: Vec<[u32; 3]>,
    normals: Vec<[u32; 3]>,
    records: Vec<Vertex>,
    used: usize,
}

impl View for Pools {
    type V = ParseState;

    closed spec fn view(&self) -> ParseState {
        ParseState {
            vertices: self.vertices@,
            normals: self.normals@,
            records: self.records@,
            used: self.used as nat,
        }
    }
}

fn is_word1(d: &Vec<char>, c: char) -> (r: bool)
    ensures
        r == (d@ == seq![c]),
{
    let r = d.len() == 1 && d[0] == c;
    proof {
        if r {
            assert(d@ =~= seq![c]);
        }
    }
    r
}

fn is_word2(d: &Vec<char>, c0: char, c1: char) -> (r: bool)
    ensures
        r == (d@ == seq![c0, c1]),
{
    let r = d.len() == 2 && d[0] == c0 && d[1] == c1;
    proof {
        if r {
            assert(d@ =~= seq![c0, c1]);
        }
    }
    r
}

/// The entry that a 1-based index names in a pool, as `lookup` states.
fn lookup_entry(pool: &Vec<[u32; 3]>, i: Option<usize>) -> (r: Option<[u32; 3]>)
    ensures
        r == lookup(pool@, i),
{
    match i {
        Some(n) => if 1 <= n && n <= pool.len() {
            Some(pool[n - 1])
        } else {
            None
        },
        None => None,
    }
}

/// Reads a face corner token: `None` if a field does not read as an index.
pub fn parse_corner(tok: &Vec<char>) -> (r: Option<Corner>)
    ensures
        r is Some <==> corner_fields_ok(tok@),
        r is Some ==> r->0 == corner_of(tok@),
{
    let fs = split_slash(tok.as_slice());
    let ghost fv = fs@.map_values(|f: Vec<char>| f@);
    let mut vals: Vec<Option<usize>> = Vec::new();
    let mut k: usize = 0;
    while k < fs.len()
        invariant
            fv == fs@.map_values(|f: Vec<char>| f@),
            fv == fields(tok@),
            fv.len() == fs@.len(),
            k <= fs@.len(),
            vals@.len() == k,
            forall|m: int| 0 <= m < k ==> field_index(#[trigger] fv[m]) == Some(vals@[m]),
        decreases fs@.len() - k,
    {
        let f = &fs[k];
        assert(f@ == fv[k as int]);
        if f.len() == 0 {
            vals.push(None);
        } else {
            match parse_index_chars(f.as_slice()) {
                Some(n) => vals.push(Some(n)),
                None => {
                    assert(field_index(fv[k as int]) is None);
                    return None;
                },
            }
        }
        k = k + 1;
    }
    let position = if vals.len() > 0 {
        vals[0]
    } else {
        None
    };
    let texcoord = if vals.len() > 1 {
        vals[1]
    } else {
        None
    };
    let normal = if vals.len() > 2 {
        vals[2]
    } else {
        None
    };
    proof {
        assert forall|m: int| 0 <= m < fields(tok@).len() implies #[trigger] field_index(
            fields(tok@)[m],
        ) is Some by {
            assert(field_index(fv[m]) == Some(vals@[m]));
        }
    }
    Some(Corner { position, texcoord, normal })
}

impl Pools {
    fn new() -> (r: Pools)
        ensures
            r@ == initial_state(),
    {
        Pools { vertices: Vec::new(), normals: Vec::new(), records: Vec::new(), used: 0 }
    }

    /// Applies line `index`, as `step` states.
    fn parse_line(&mut self, index: usize, line: &Vec<char>, coords: &Vec<Option<u32>>) -> (r: Result<
        (),
        Error,
    >)
        requires
            is_coordinate_line(line@) ==> old(self).used + 3 <= coords.len(),
        ensures
            match step(old(self)@, index as int, line@, coords@) {
                Ok(st) => r is Ok && final(self)@ == st,
                Err(f) => r is Err && error_matches(r->Err_0, f),
            },
    {
        if line.len() == 0 {
            return Ok(());
        }
        let trimmed = trim_chars(line.as_slice());
        let t = match lex_chars(index, trimmed.as_slice(), line.as_slice()) {
            Ok(t) => t,
            Err(e) => return Err(e),
        };
        let ghost tv = t@.map_values(|x: Vec<char>| x@);
        assert(tv == line_tokens(line@));
        assert(t[0]@ == tv[0]);
        let is_v = is_word1(&t[0], 'v');
        let is_vn = is_word2(&t[0], 'v', 'n');
        let is_f = is_word1(&t[0], 'f');
        if is_v || is_vn {
            if t.len() != 4 {
                return Err(Error::invalid(index, string_from_chars(line.as_slice())));
            }
            assert(is_coordinate_line(line@));
            let u = self.used;
            match (coords[u], coords[u + 1], coords[u + 2]) {
                (Some(x), Some(y), Some(z)) => {
                    let p = [x, y, z];
                    if is_v {
                        self.vertices.push(p);
                    } else {
                        self.normals.push(p);
                    }
                    self.used = u + 3;
                    Ok(())
                },
                _ => Err(
                    Error::new(
                        ErrorKind::NumericParse(NumericKind::Float),
                        index,
                        string_from_chars(line.as_slice()),
                    ),
                ),
            }
        } else if is_f {
            let ghost args = tv.skip(1);
            if t.len() != 4 && t.len() != 5 {
                return Err(Error::invalid(index, string_from_chars(line.as_slice())));
            }
            let mut corners: Vec<Corner> = Vec::new();
            let mut k: usize = 1;
            while k < t.len()
                invariant
                    tv == t@.map_values(|x: Vec<char>| x@),
                    tv == line_tokens(line@),
                    args == tv.skip(1),
                    line@.len() > 0,
                    tv.len() == 4 || tv.len() == 5,
                    !is_vertex_directive(tv[0]) && !is_normal_directive(tv[0]),
                    is_face_directive(tv[0]),
                    1 <= k <= t@.len(),
                    t@.len() == 4 || t@.len() == 5,
                    self@ == old(self)@,
                    corners@.len() == k - 1,
                    forall|m: int| 0 <= m < k - 1 ==> corner_fields_ok(#[trigger] args[m]),
                    forall|m: int| 0 <= m < k - 1 ==> #[trigger] corners@[m] == corner_of(args[m]),
                decreases t@.len() - k,
            {
                assert(t[k as int]@ == args[k - 1]);
                match parse_corner(&t[k]) {
                    Some(c) => corners.push(c),
                    None => {
                        assert(!corner_fields_ok(args[k - 1]));
                        return Err(
                            Error::new(
                                ErrorKind::NumericParse(NumericKind::Int),
                                index,
                                string_from_chars(line.as_slice()),
                            ),
                        );
                    },
                }
                k = k + 1;
            }
            let ghost cs = args.map_values(|a: Seq<char>| corner_of(a));
            assert(corners@ =~= cs);
            let mut j: usize = 0;
            while j < corners.len()
                invariant
                    corners@ == cs,
                    tv == line_tokens(line@),
                    args == tv.skip(1),
                    cs == args.map_values(|a: Seq<char>| corner_of(a)),
                    forall|m: int| 0 <= m < args.len() ==> corner_fields_ok(#[trigger] args[m]),
                    j <= corners@.len(),
                    line@.len() > 0,
                    tv.len() == 4 || tv.len() == 5,
                    !is_vertex_directive(tv[0]) && !is_normal_directive(tv[0]),
                    is_face_directive(tv[0]),
                    self@ == old(self)@,
                    forall|m: int| 0 <= m < j ==> resolvable(self@, #[trigger] cs[m]),
                decreases corners@.len() - j,
            {
                let c = corners[j];
                let p = lookup_entry(&self.vertices, c.position);
                let q = lookup_entry(&self.normals, c.normal);
                if p.is_none() || q.is_none() {
                    assert(!resolvable(self@, cs[j as int]));
                    return Err(
                        Error::new(
                            ErrorKind::IndexOutOfRange,
                            index,
                            string_from_chars(line.as_slice()),
                        ),
                    );
                }
                j = j + 1;
            }
            let ghost st = self@;
            let order: Vec<usize> = if corners.len() == 3 {
                vec![0, 2, 1]
            } else {
                vec![0, 2, 1, 3, 2, 0]
            };
            let ghost em = emission_order(cs.len());
            assert(order@.map_values(|o: usize| o as int) =~= em);
            assert(cs.len() == 3 || cs.len() == 4);
            assert(forall|m: int| 0 <= m < em.len() ==> 0 <= #[trigger] em[m] < cs.len());
            let mut e: usize = 0;
            while e < order.len()
                invariant
                    corners@ == cs,
                    em == emission_order(cs.len()),
                    forall|m: int| 0 <= m < em.len() ==> 0 <= #[trigger] em[m] < cs.len(),
                    order@.map_values(|o: usize| o as int) == em,
                    forall|m: int| 0 <= m < cs.len() ==> resolvable(st, #[trigger] cs[m]),
                    e <= order@.len(),
                    self.vertices@ == st.vertices,
                    self.normals@ == st.normals,
                    self.used == st.used,
                    self@.records == st.records + face_records(st, cs).take(e as int),
                decreases order@.len() - e,
            {
                let o = order[e];
                assert(o as int == em[e as int]);
                let c = corners[o];
                let p = lookup_entry(&self.vertices, c.position);
                let q = lookup_entry(&self.normals, c.normal);
                let rec = Vertex { position: p.unwrap(), normal: q.unwrap() };
                proof {
                    assert(rec == record_of(st, cs[o as int]));
                    assert(face_records(st, cs).take(e + 1) =~= face_records(st, cs).take(
                        e as int,
                    ).push(rec));
                }
                self.records.push(rec);
                e = e + 1;
            }
            proof {
                assert(face_records(st, cs).take(e as int) =~= face_records(st, cs));
            }
            Ok(())
        } else {
            Ok(())
        }
    }
}


/// After the first `n` lines, the coordinate values taken are those the
/// coordinate lines among them hold.
proof fn lemma_used(ls: Seq<Seq<char>>, coords: Seq<Option<u32>>, n: nat)
    requires
        n <= ls.len(),
        run(ls, coords, n) is Ok,
    ensures
        run(ls, coords, n)->Ok_0.used == coordinate_tokens_upto(ls, n as int).len(),
    decreases n,
{
    if n > 0 {
        lemma_used(ls, coords, (n - 1) as nat);
    }
}

proof fn lemma_upto_mono(ls: Seq<Seq<char>>, a: int, b: int)
    requires
        0 <= a <= b,
    ensures
        coordinate_tokens_upto(ls, a).len() <= coordinate_tokens_upto(ls, b).len(),
    decreases b,
{
    if a < b {
        lemma_upto_mono(ls, a, b - 1);
    }
}

/// Once a line fails, the outcome stays that failure.
proof fn lemma_run_err(ls: Seq<Seq<char>>, coords: Seq<Option<u32>>, n: nat, m: nat)
    requires
        n <= m,
        run(ls, coords, n) is Err,
    ensures
        run(ls, coords, m) == run(ls, coords, n),
    decreases m,
{
    if n < m {
        lemma_run_err(ls, coords, n, (m - 1) as nat);
    }
}

/// Lays the records out as one packed buffer, as `flatten` states.
pub fn flatten_records(recs: &Vec<Vertex>) -> (r: Vec<u32>)
    ensures
        r@ == flatten(recs@),
{
    let mut r: Vec<u32> = Vec::new();
    let mut i: usize = 0;
    proof {
        assert(recs@.take(0) =~= seq![]);
    }
    while i < recs.len()
        invariant
            i <= recs@.len(),
            r@ == flatten(recs@.take(i as int)),
        decreases recs@.len() - i,
    {
        let v = recs[i];
        r.push(v.position[0]);
        r.push(v.position[1]);
        r.push(v.position[2]);
        r.push(v.normal[0]);
        r.push(v.normal[1]);
        r.push(v.normal[2]);
        proof {
            assert(recs@.take(i + 1).drop_last() =~= recs@.take(i as int));
            assert(r@ =~= flatten(recs@.take(i as int)) + record_floats(v));
        }
        i = i + 1;
    }
    proof {
        assert(recs@.take(i as int) =~= recs@);
    }
    r
}

/// Parses mesh text. `coords` holds, for each token of
/// `coordinate_tokens_of(input)` in order, the bit pattern of the 32-bit
/// float it reads as, or `None` where it does not read as one. The buffer
/// holds the records of every face, six values each; the first failing line
/// gives the error and nothing else is returned.
pub fn parse_obj(input: &str, coords: &Vec<Option<u32>>) -> (r: Result<Obj, Error>)
    requires
        coords@.len() == coordinate_tokens_of(input@).len(),
    ensures
        parse_outcome(r, input@, coords@),
{
    let chars = chars_of(input);
    let ls = split_lines(chars.as_slice());
    let ghost lsv = ls@.map_values(|l: Vec<char>| l@);
    let mut pools = Pools::new();
    let mut i: usize = 0;
    while i < ls.len()
        invariant
            lsv == ls@.map_values(|l: Vec<char>| l@),
            lsv == lines(input@),
            i <= ls@.len(),
            coords@.len() == coordinate_tokens_upto(lsv, lsv.len() as int).len(),
            run(lsv, coords@, i as nat) == Ok::<ParseState, Failure>(pools@),
        decreases ls@.len() - i,
    {
        proof {
            lemma_used(lsv, coords@, i as nat);
            lemma_upto_mono(lsv, i + 1, lsv.len() as int);
            assert(ls[i as int]@ == lsv[i as int]);
        }
        match pools.parse_line(i, &ls[i], coords) {
            Ok(()) => {},
            Err(e) => {
                proof {
                    lemma_run_err(lsv, coords@, (i + 1) as nat, lsv.len());
                }
                return Err(e);
            },
        }
        i = i + 1;
    }
    let data = flatten_records(&pools.records);
    Ok(Obj { data })
}

/// The coordinate tokens of one line, as `String`s.
fn line_coordinate_tokens(line: &Vec<char>) -> (r: Vec<String>)
    ensures
        r@.map_values(|s: String| s@) == (if is_coordinate_line(line@) {
            line_tokens(line@).skip(1)
        } else {
            seq![]
        }),
{
    let mut r: Vec<String> = Vec::new();
    if line.len() == 0 {
        proof {
            assert(r@.map_values(|s: String| s@) =~= seq![]);
        }
        return r;
    }
    let trimmed = trim_chars(line.as_slice());
    let t = split_ascii_ws(trimmed.as_slice());
    let ghost tv = t@.map_values(|x: Vec<char>| x@);
    if t.len() == 4 && (is_word1(&t[0], 'v') || is_word2(&t[0], 'v', 'n')) {
        assert(t[0]@ == tv[0]);
        r.push(string_from_chars(t[1].as_slice()));
        r.push(string_from_chars(t[2].as_slice()));
        r.push(string_from_chars(t[3].as_slice()));
        proof {
            assert(t[1]@ == tv[1]);
            assert(t[2]@ == tv[2]);
            assert(t[3]@ == tv[3]);
            assert(r@.map_values(|s: String| s@) =~= tv.skip(1));
        }
    } else {
        proof {
            if t@.len() == 4 {
                assert(t[0]@ == tv[0]);
            }
            assert(r@.map_values(|s: String| s@) =~= seq![]);
        }
    }
    r
}

/// Every coordinate token of `input`, in order: the tokens whose float
/// readings `parse_obj` takes.
pub fn coordinate_tokens(input: &str) -> (r: Vec<String>)
    ensures
        r@.map_values(|s: String| s@) == coordinate_tokens_of(input@),
{
    let chars = chars_of(input);
    let ls = split_lines(chars.as_slice());
    let ghost lsv = ls@.map_values(|l: Vec<char>| l@);
    let mut r: Vec<String> = Vec::new();
    let mut i: usize = 0;
    proof {
        assert(r@.map_values(|s: String| s@) =~= seq![]);
    }
    while i < ls.len()
        invariant
            lsv == ls@.map_values(|l: Vec<char>| l@),
            i <= ls@.len(),
            r@.map_values(|s: String| s@) == coordinate_tokens_upto(lsv, i as int),
        decreases ls@.len() - i,
    {
        assert(ls[i as int]@ == lsv[i as int]);
        let more = line_coordinate_tokens(&ls[i]);
        let ghost before = r@;
        let mut k: usize = 0;
        while k < more.len()
            invariant
                k <= more@.len(),
                r@ == before + more@.take(k as int),
            decreases more@.len() - k,
        {
            r.push(more[k].clone());
            proof {
                assert(more@.take(k + 1) =~= more@.take(k as int).push(more@[k as int]));
            }
            k = k + 1;
        }
        proof {
            assert(more@.take(k as int) =~= more@);
            assert(r@.map_values(|s: String| s@) =~= before.map_values(|s: String| s@)
                + more@.map_values(|s: String| s@));
        }
        i = i + 1;
    }
    r
}

/// Splits `line` at runs of ASCII whitespace; a line with no tokens is an
/// `InvalidFormat` failure that reports `index` and `context`.
fn lex_chars(index: usize, line: &[char], context: &[char]) -> (r: Result<Vec<Vec<char>>, Error>)
    ensures
        r is Err <==> tokens(line@).len() == 0,
        r is Err ==> r->Err_0.kind == ErrorKind::InvalidFormat && r->Err_0.index == index
            && r->Err_0.line@ == context@,
        r is Ok ==> r->Ok_0@.map_values(|x: Vec<char>| x@) == tokens(line@),
{
    let t = split_ascii_ws(line);
    if t.len() == 0 {
        return Err(Error::invalid(index, string_from_chars(context)));
    }
    Ok(t)
}

/// Splits a line into its directive and its arguments at runs of ASCII
/// whitespace; a line with no tokens is an `InvalidFormat` failure.
pub fn lex_line(index: usize, line: &str) -> (r: Result<(String, Vec<String>), Error>)
    ensures
        r is Err <==> tokens(line@).len() == 0,
        r is Err ==> r->Err_0.kind == ErrorKind::InvalidFormat && r->Err_0.index == index
            && r->Err_0.line@ == line@,
        r is Ok ==> r->Ok_0.0@ == tokens(line@)[0] && r->Ok_0.1@.map_values(|s: String| s@)
            == tokens(line@).skip(1),
{
    let chars = chars_of(line);
    let t = match lex_chars(index, chars.as_slice(), chars.as_slice()) {
        Ok(t) => t,
        Err(e) => return Err(e),
    };
    let ghost tv = t@.map_values(|x: Vec<char>| x@);
    let directive = string_from_chars(t[0].as_slice());
    let mut args: Vec<String> = Vec::new();
    let mut k: usize = 1;
    while k < t.len()
        invariant
            tv == t@.map_values(|x: Vec<char>| x@),
            1 <= k <= t@.len(),
            args@.map_values(|s: String| s@) == tv.subrange(1, k as int),
        decreases t@.len() - k,
    {
        let a = string_from_chars(t[k].as_slice());
        assert(t[k as int]@ == tv[k as int]);
        let ghost before = args@;
        args.push(a);
        proof {
            assert(args@.map_values(|s: String| s@) =~= before.map_values(|s: String| s@).push(a@));
            assert(args@.map_values(|s: String| s@) =~= tv.subrange(1, k + 1));
        }
        k = k + 1;
    }
    proof {
        assert(tv.subrange(1, k as int) =~= tv.skip(1));
    }
    Ok((directive, args))
}

} // verus!
