//! Properties of the parser that relate lines, states and the packed buffer.
use vstd::prelude::*;

use crate::error::Error;
use crate::obj::{
    flatten, initial_state, is_coordinate_line, is_face_directive, is_normal_directive,
    is_vertex_directive, line_tokens, next_coordinates, parse_outcome, parse_result, record_floats,
    run, step, Obj, ParseState, Vertex,
};
use crate::text::lines;

verus! {

/// A line that changes nothing: empty, or led by a directive other than
/// `v`, `vn` and `f`.
pub open spec fn is_ignored_line(l: Seq<char>) -> bool {
    let t = line_tokens(l);
    l.len() == 0 || (t.len() > 0 && !is_vertex_directive(t[0]) && !is_normal_directive(t[0])
        && !is_face_directive(t[0]))
}

proof fn lemma_run_ignored(ls: Seq<Seq<char>>, coords: Seq<Option<u32>>, n: nat)
    requires
        n <= ls.len(),
        forall|i: int| 0 <= i < ls.len() ==> is_ignored_line(#[trigger] ls[i]),
    ensures
        run(ls, coords, n) == Ok::<ParseState, crate::obj::Failure>(initial_state()),
    decreases n,
{
    if n > 0 {
        lemma_run_ignored(ls, coords, (n - 1) as nat);
        assert(is_ignored_line(ls[n - 1]));
    }
}

/// Input made only of empty lines and lines with unrecognised directives
/// parses, and its buffer is empty.
pub proof fn law_ignored_input_gives_empty_buffer(input: Seq<char>, coords: Seq<Option<u32>>)
    requires
        forall|i: int| 0 <= i < lines(input).len() ==> is_ignored_line(#[trigger] lines(input)[i]),
    ensures
        parse_result(input, coords) == Ok::<Seq<Vertex>, crate::obj::Failure>(seq![]),
        flatten(seq![]) == Seq::<u32>::empty(),
{
    lemma_run_ignored(lines(input), coords, lines(input).len());
}

/// A `v` or `vn` line with three coordinates that read appends exactly one
/// entry, those coordinates, to its own pool, and leaves the other pool and
/// the records alone.
pub proof fn law_coordinate_line_appends_one(
    st: ParseState,
    index: int,
    line: Seq<char>,
    coords: Seq<Option<u32>>,
)
    requires
        is_coordinate_line(line),
        next_coordinates(st, coords) is Some,
    ensures
        step(st, index, line, coords) is Ok,
        ({
            let next = step(st, index, line, coords)->Ok_0;
            let p = next_coordinates(st, coords)->0;
            &&& next.records == st.records
            &&& is_vertex_directive(line_tokens(line)[0]) ==> next.vertices == st.vertices.push(p)
                && next.normals == st.normals
            &&& !is_vertex_directive(line_tokens(line)[0]) ==> next.normals == st.normals.push(p)
                && next.vertices == st.vertices
        }),
{
}

/// The buffer holds six values per record.
pub proof fn law_flatten_len(recs: Seq<Vertex>)
    ensures
        flatten(recs).len() == 6 * recs.len(),
    decreases recs.len(),
{
    if recs.len() > 0 {
        law_flatten_len(recs.drop_last());
    }
}

/// Record `i` has its position at `6i..6i+3` and its normal at `6i+3..6i+6`.
pub proof fn law_buffer_layout(recs: Seq<Vertex>, i: int, k: int)
    requires
        0 <= i < recs.len(),
        0 <= k < 3,
    ensures
        flatten(recs)[6 * i + k] == recs[i].position[k],
        flatten(recs)[6 * i + 3 + k] == recs[i].normal[k],
    decreases recs.len(),
{
    let p = recs.drop_last();
    law_flatten_len(p);
    if i < recs.len() - 1 {
        law_buffer_layout(p, i, k);
        law_flatten_len(recs);
    } else {
        assert(record_floats(recs.last())[k] == recs[i].position[k]);
        assert(record_floats(recs.last())[3 + k] == recs[i].normal[k]);
    }
}

/// A face line that succeeds adds 18 values to the buffer for a triangle
/// and 36 for a quad.
pub proof fn law_face_emits(st: ParseState, index: int, line: Seq<char>, coords: Seq<Option<u32>>)
    requires
        line.len() > 0,
        line_tokens(line).len() > 0,
        is_face_directive(line_tokens(line)[0]),
        step(st, index, line, coords) is Ok,
    ensures
        line_tokens(line).len() == 4 ==> flatten(step(st, index, line, coords)->Ok_0.records).len()
            == flatten(st.records).len() + 18,
        line_tokens(line).len() == 5 ==> flatten(step(st, index, line, coords)->Ok_0.records).len()
            == flatten(st.records).len() + 36,
{
    let t = line_tokens(line);
    assert(!is_vertex_directive(t[0]) && !is_normal_directive(t[0])) by {
        if is_vertex_directive(t[0]) || is_normal_directive(t[0]) {
            assert(t[0].len() != 1 || t[0][0] != 'f');
        }
    }
    let next = step(st, index, line, coords)->Ok_0;
    law_flatten_len(st.records);
    law_flatten_len(next.records);
}

/// Parsing the same input with the same readings twice gives the same
/// outcome: equal buffers, or equal failures.
pub proof fn law_parse_is_deterministic(
    r1: Result<Obj, Error>,
    r2: Result<Obj, Error>,
    input: Seq<char>,
    coords: Seq<Option<u32>>,
)
    requires
        parse_outcome(r1, input, coords),
        parse_outcome(r2, input, coords),
    ensures
        r1 is Ok <==> r2 is Ok,
        r1 is Ok ==> r1->Ok_0@ == r2->Ok_0@,
        r1 is Err ==> r1->Err_0.kind == r2->Err_0.kind && r1->Err_0.index == r2->Err_0.index
            && r1->Err_0.line@ == r2->Err_0.line@,
{
}

} // verus!
