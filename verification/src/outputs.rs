//! Monitor geometry as the compositor reports it, turned into logical rectangles.
use vstd::prelude::*;
use crate::text::{chars_of, chars_eq, fmt_u64, push_str, push_all, string_of, dec_digits};

verus! {

/// A monitor: its name, position in the global logical space and logical size.
#[derive(Debug)]
pub struct OutputInfo {
    pub name: String,
    pub pos: (i32, i32),
    pub size: (u32, u32),
}

/// What the compositor has told about one output so far: the core protocol's
/// geometry, current mode and scale, and the logical position and size.
pub struct OutputAccum {
    pub name: Option<String>,
    pub geom_pos: Option<(i32, i32)>,
    pub geom_size: Option<(i32, i32)>,
    pub scale: Option<i32>,
    pub log_pos: Option<(i32, i32)>,
    pub log_size: Option<(i32, i32)>,
}

impl OutputAccum {
    /// Nothing reported yet.
    pub fn new() -> (a: OutputAccum)
        ensures
            a.name is None && a.geom_pos is None && a.geom_size is None && a.scale is None && a.log_pos is None
                && a.log_size is None,
    {
        OutputAccum { name: None, geom_pos: None, geom_size: None, scale: None, log_pos: None, log_size: None }
    }
}

/// The output has reported what the chosen protocol needs.
pub open spec fn accum_ready(a: OutputAccum, use_xdg: bool) -> bool {
    if use_xdg {
        a.log_pos is Some && a.log_size is Some
    } else {
        a.geom_size is Some
    }
}

/// Whether every output has reported its geometry.
pub fn outputs_ready(accs: &Vec<OutputAccum>, use_xdg: bool) -> (r: bool)
    ensures
        r == forall|k: int| 0 <= k < accs@.len() ==> accum_ready(#[trigger] accs@[k], use_xdg),
{
    let mut i: usize = 0;
    while i < accs.len()
        invariant
            i <= accs@.len(),
            forall|k: int| 0 <= k < i ==> accum_ready(#[trigger] accs@[k], use_xdg),
        decreases accs@.len() - i,
    {
        let a = &accs[i];
        let ok = if use_xdg {
            a.log_pos.is_some() && a.log_size.is_some()
        } else {
            a.geom_size.is_some()
        };
        if !ok {
            return false;
        }
        i = i + 1;
    }
    true
}

/// A negative size counts as zero.
pub open spec fn clamp_size(v: i32) -> u32 {
    if v < 0 {
        0
    } else {
        v as u32
    }
}

/// `v / s` rounded to the nearest integer, halves away from zero, for
/// `v >= 0` and `s >= 1`.
pub open spec fn div_round(v: int, s: int) -> int {
    (2 * v + s) / (2 * s)
}

/// A mode size in physical pixels divided by the output scale (at least 1).
pub open spec fn scaled_size(v: i32, scale: Option<i32>) -> u32 {
    let s: int = match scale {
        Some(f) => if f < 1 {
            1
        } else {
            f as int
        },
        None => 1,
    };
    div_round(clamp_size(v) as int, s) as u32
}

/// The scale an output's mode size is divided by: the reported one, at least 1.
pub open spec fn effective_scale(scale: Option<i32>) -> int {
    match scale {
        Some(f) => if f < 1 {
            1
        } else {
            f as int
        },
        None => 1,
    }
}

/// A scaled size is the mode size divided by the scale, rounded to the
/// nearest whole pixel (halves up): it is within half a pixel of the exact
/// quotient. Without a scale, or at scale 1, the size is unchanged; an exact
/// multiple divides exactly; a negative size gives zero.
pub proof fn lemma_scaled_size_laws(v: i32, scale: Option<i32>, k: nat)
    ensures
        ({
            let s = effective_scale(scale);
            let q = scaled_size(v, scale) as int;
            &&& 2 * s * q <= 2 * clamp_size(v) + s
            &&& 2 * clamp_size(v) + s < 2 * s * (q + 1)
        }),
        effective_scale(scale) == 1 ==> scaled_size(v, scale) == clamp_size(v),
        v >= 0 && v == k * effective_scale(scale) ==> scaled_size(v, scale) == k,
        v <= 0 ==> scaled_size(v, scale) == 0,
{
    let s = effective_scale(scale);
    let c = clamp_size(v) as int;
    let q = div_round(c, s);
    assert(s >= 1);
    assert(0 <= c <= 0x7fff_ffff);
    assert(2 * s * q <= 2 * c + s < 2 * s * (q + 1)) by (nonlinear_arith)
        requires
            s >= 1,
            c >= 0,
            q == (2 * c + s) / (2 * s),
    {
    }
    assert(0 <= q <= c + 1) by (nonlinear_arith)
        requires
            s >= 1,
            c >= 0,
            q == (2 * c + s) / (2 * s),
    {
    }
    if v >= 0 && v == k * s {
        assert(q == k) by (nonlinear_arith)
            requires
                s >= 1,
                c == k * s,
                q == (2 * c + s) / (2 * s),
                2 * s * q <= 2 * c + s < 2 * s * (q + 1),
        {
        }
    }
    if s == 1 {
        assert(q == c) by (nonlinear_arith)
            requires
                s == 1,
                q == (2 * c + s) / (2 * s),
        {
        }
    }
    if v <= 0 {
        assert(c == 0);
        assert(q == 0) by (nonlinear_arith)
            requires
                s >= 1,
                c == 0,
                q == (2 * c + s) / (2 * s),
        {
        }
    }
}

fn clamp_size_exec(v: i32) -> (r: u32)
    ensures
        r == clamp_size(v),
{
    if v < 0 {
        0
    } else {
        v as u32
    }
}

fn scaled_size_exec(v: i32, scale: Option<i32>) -> (r: u32)
    ensures
        r == scaled_size(v, scale),
{
    let s: u64 = match scale {
        Some(f) => if f < 1 {
            1
        } else {
            f as u64
        },
        None => 1,
    };
    let c = clamp_size_exec(v) as u64;
    let q = (2 * c + s) / (2 * s);
    proof {
        assert(q <= c + 1) by (nonlinear_arith)
            requires
                q == (2 * c + s) / (2 * s),
                s >= 1,
                c >= 0,
        ;
        assert(q <= u32::MAX) by (nonlinear_arith)
            requires
                q == (2 * c + s) / (2 * s),
                s >= 1,
                c <= 0x7fff_ffff,
        ;
    }
    q as u32
}

pub open spec fn opt_view(o: Option<String>) -> Option<Seq<char>> {
    match o {
        Some(s) => Some(s@),
        None => None,
    }
}

/// The logical rectangle of an output, when it reported what the protocol
/// needs: the logical position and size as given, or the core geometry's
/// position with the mode size divided by the scale.
pub open spec fn spec_output_info(a: OutputAccum, use_xdg: bool) -> Option<((i32, i32), (u32, u32))> {
    if use_xdg {
        match (a.log_pos, a.log_size) {
            (Some(pos), Some(size)) => Some((pos, (clamp_size(size.0), clamp_size(size.1)))),
            _ => None,
        }
    } else {
        match (a.geom_pos, a.geom_size) {
            (Some(pos), Some(size)) => Some((pos, (scaled_size(size.0, a.scale), scaled_size(size.1, a.scale)))),
            _ => None,
        }
    }
}

/// The output's name, or the empty string when it gave none.
pub open spec fn name_of(a: OutputAccum) -> Seq<char> {
    match a.name {
        Some(n) => n@,
        None => Seq::empty(),
    }
}

/// The output described by what it reported, if it reported enough.
pub fn output_info_of(a: &OutputAccum, use_xdg: bool) -> (r: Option<OutputInfo>)
    ensures
        match spec_output_info(*a, use_xdg) {
            Some((pos, size)) => r is Some && r->0.pos == pos && r->0.size == size && r->0.name@ == name_of(*a),
            None => r is None,
        },
{
    let rect: Option<((i32, i32), (u32, u32))> = if use_xdg {
        match (a.log_pos, a.log_size) {
            (Some(pos), Some(size)) => Some((pos, (clamp_size_exec(size.0), clamp_size_exec(size.1)))),
            _ => None,
        }
    } else {
        match (a.geom_pos, a.geom_size) {
            (Some(pos), Some(size)) => Some((pos, (scaled_size_exec(size.0, a.scale), scaled_size_exec(size.1, a.scale)))),
            _ => None,
        }
    };
    match rect {
        Some((pos, size)) => {
            let name = match &a.name {
                Some(n) => n.clone(),
                None => String::new(),
            };
            Some(OutputInfo { name, pos, size })
        },
        None => None,
    }
}

/// The outputs, in order, that reported enough to place them.
pub open spec fn placed(accs: Seq<OutputAccum>, use_xdg: bool) -> Seq<OutputAccum>
    decreases accs.len(),
{
    if accs.len() == 0 {
        Seq::empty()
    } else {
        let rest = placed(accs.drop_last(), use_xdg);
        if spec_output_info(accs.last(), use_xdg) is Some {
            rest.push(accs.last())
        } else {
            rest
        }
    }
}

/// Every output that reported enough to place it, in order; an error when none did.
pub fn collect_outputs(accs: &Vec<OutputAccum>, use_xdg: bool) -> (r: Result<Vec<OutputInfo>, String>)
    ensures
        match r {
            Ok(infos) => {
                let p = placed(accs@, use_xdg);
                &&& p.len() > 0
                &&& infos@.len() == p.len()
                &&& forall|k: int|
                    0 <= k < p.len() ==> {
                        let (pos, size) = spec_output_info(#[trigger] p[k], use_xdg)->0;
                        infos@[k].pos == pos && infos@[k].size == size && infos@[k].name@ == name_of(p[k])
                    }
            },
            Err(_) => placed(accs@, use_xdg).len() == 0,
        },
{
    let mut infos: Vec<OutputInfo> = Vec::new();
    let mut i: usize = 0;
    while i < accs.len()
        invariant
            i <= accs@.len(),
            infos@.len() == placed(accs@.take(i as int), use_xdg).len(),
            forall|k: int|
                0 <= k < infos@.len() ==> {
                    let a = #[trigger] placed(accs@.take(i as int), use_xdg)[k];
                    let (pos, size) = spec_output_info(a, use_xdg)->0;
                    infos@[k].pos == pos && infos@[k].size == size && infos@[k].name@ == name_of(a)
                },
        decreases accs@.len() - i,
    {
        let ghost before = placed(accs@.take(i as int), use_xdg);
        proof {
            assert(accs@.take(i + 1).drop_last() =~= accs@.take(i as int));
            assert(accs@.take(i + 1).last() == accs@[i as int]);
        }
        let info = output_info_of(&accs[i], use_xdg);
        match info {
            Some(o) => {
                infos.push(o);
            },
            None => {},
        }
        i = i + 1;
    }
    proof {
        assert(accs@.take(i as int) =~= accs@);
    }
    if infos.len() == 0 {
        return Err(String::from_str("failed to obtain output geometry from the compositor"));
    }
    Ok(infos)
}

/// The output carries this (non-empty) connector name.
pub open spec fn named(o: OutputInfo, name: Seq<char>) -> bool {
    o.name@.len() > 0 && o.name@ == name
}

/// The output sits exactly at `pos` with size `size`.
pub open spec fn placed_at(o: OutputInfo, size: (u32, u32), pos: (i32, i32)) -> bool {
    o.pos == pos && o.size == size
}

/// The output's rectangle holds `pos`; its size is read as a signed number.
pub open spec fn covers(o: OutputInfo, pos: (i32, i32)) -> bool {
    &&& pos.0 >= o.pos.0
    &&& pos.1 >= o.pos.1
    &&& pos.0 < o.pos.0 + (o.size.0 as i32) as int
    &&& pos.1 < o.pos.1 + (o.size.1 as i32) as int
}

/// The first output, from index `from` on, that satisfies `p`.
pub open spec fn first_where(outs: Seq<OutputInfo>, p: spec_fn(OutputInfo) -> bool, from: int) -> Option<int>
    decreases outs.len() - from,
{
    if from < 0 || from >= outs.len() {
        None
    } else if p(outs[from]) {
        Some(from)
    } else {
        first_where(outs, p, from + 1)
    }
}

/// The output tests by kind: named `name`, placed exactly at `pos` with
/// `size`, holding `pos`, or of size `size`.
pub open spec fn pred(kind: u8, name: Seq<char>, size: (u32, u32), pos: (i32, i32)) -> spec_fn(OutputInfo) -> bool {
    if kind == 0 {
        |o: OutputInfo| named(o, name)
    } else if kind == 1 {
        |o: OutputInfo| placed_at(o, size, pos)
    } else if kind == 2 {
        |o: OutputInfo| covers(o, pos)
    } else {
        |o: OutputInfo| o.size == size
    }
}

/// Which output a captured stream shows: the one the portal names, else
/// one at the stream's position and size, else one holding its position,
/// else one of its size, else the only output.
pub open spec fn spec_match_output(
    outs: Seq<OutputInfo>,
    size: Option<(u32, u32)>,
    pos: Option<(i32, i32)>,
    id: Option<Seq<char>>,
) -> Option<int> {
    let by_name = match id {
        Some(n) => first_where(outs, pred(0, n, (0, 0), (0, 0)), 0),
        None => None,
    };
    let single = if outs.len() == 1 { Some(0int) } else { None };
    if by_name is Some {
        by_name
    } else {
        match (size, pos) {
            (Some(sz), Some(p)) => {
                let exact = first_where(outs, pred(1, Seq::empty(), sz, p), 0);
                let holding = first_where(outs, pred(2, Seq::empty(), sz, p), 0);
                let same_size = first_where(outs, pred(3, Seq::empty(), sz, p), 0);
                if exact is Some {
                    exact
                } else if holding is Some {
                    holding
                } else if same_size is Some {
                    same_size
                } else {
                    single
                }
            },
            _ => single,
        }
    }
}

proof fn lemma_first_where(outs: Seq<OutputInfo>, p: spec_fn(OutputInfo) -> bool, from: int)
    requires
        0 <= from,
    ensures
        match first_where(outs, p, from) {
            Some(k) => from <= k < outs.len() && p(outs[k]) && forall|j: int| from <= j < k ==> !p(#[trigger] outs[j]),
            None => forall|j: int| from <= j < outs.len() ==> !p(#[trigger] outs[j]),
        },
    decreases outs.len() - from,
{
    if from < outs.len() && !p(outs[from]) {
        lemma_first_where(outs, p, from + 1);
    }
}

/// The output picked for a stream meets the test that picked it, and no
/// earlier output does: the first one the portal names, when one carries
/// that name; else, given the stream's position and size, the first placed
/// exactly there, else the first holding the position, else the first of
/// that size; else the only output. None is picked only when no test is met
/// and there is not exactly one output.
pub proof fn lemma_match_output_laws(
    outs: Seq<OutputInfo>,
    size: Option<(u32, u32)>,
    pos: Option<(i32, i32)>,
    id: Option<Seq<char>>,
)
    ensures
        spec_match_output(outs, size, pos, id) matches Some(k) ==> 0 <= k < outs.len(),
        id matches Some(n) ==> (exists|j: int| 0 <= j < outs.len() && named(#[trigger] outs[j], n)) ==> (
        spec_match_output(outs, size, pos, id) matches Some(k) && named(outs[k], n) && forall|j: int|
            0 <= j < k ==> !named(#[trigger] outs[j], n)),
        (id is None || !(exists|j: int| 0 <= j < outs.len() && named(#[trigger] outs[j], id->0))) && size is Some
            && pos is Some && (exists|j: int| 0 <= j < outs.len() && placed_at(#[trigger] outs[j], size->0, pos->0))
            ==> (spec_match_output(outs, size, pos, id) matches Some(k) && placed_at(outs[k], size->0, pos->0)),
        (id is None || !(exists|j: int| 0 <= j < outs.len() && named(#[trigger] outs[j], id->0))) && (size is None
            || pos is None) ==> spec_match_output(outs, size, pos, id) == (if outs.len() == 1 {
            Some(0int)
        } else {
            None
        }),
{
    match id {
        Some(n) => lemma_first_where(outs, pred(0, n, (0, 0), (0, 0)), 0),
        None => {},
    }
    match (size, pos) {
        (Some(sz), Some(p)) => {
            lemma_first_where(outs, pred(1, Seq::empty(), sz, p), 0);
            lemma_first_where(outs, pred(2, Seq::empty(), sz, p), 0);
            lemma_first_where(outs, pred(3, Seq::empty(), sz, p), 0);
        },
        _ => {},
    }
}

fn covers_exec(o: &OutputInfo, pos: (i32, i32)) -> (r: bool)
    ensures
        r == covers(*o, pos),
{
    let sx = #[verifier::truncate] (o.size.0 as i32);
    let sy = #[verifier::truncate] (o.size.1 as i32);
    pos.0 >= o.pos.0 && pos.1 >= o.pos.1 && (pos.0 as i64) < o.pos.0 as i64 + sx as i64 && (pos.1 as i64) < o.pos.1 as i64
        + sy as i64
}

/// The index of the first output that satisfies the test `kind` (by name,
/// exact placement, holding the position, same size).
fn find_output(outs: &Vec<OutputInfo>, kind: u8, name: &Vec<char>, size: (u32, u32), pos: (i32, i32)) -> (r: Option<usize>)
    requires
        kind < 4,
    ensures
        r matches Some(i) ==> first_where(outs@, pred(kind, name@, size, pos), 0) == Some(i as int),
        r is None ==> first_where(outs@, pred(kind, name@, size, pos), 0) is None,
{
    let ghost p = pred(kind, name@, size, pos);
    let mut i: usize = 0;
    while i < outs.len()
        invariant
            i <= outs@.len(),
            kind < 4,
            p == pred(kind, name@, size, pos),
            first_where(outs@, p, 0) == first_where(outs@, p, i as int),
        decreases outs@.len() - i,
    {
        let o = &outs[i];
        let hit = if kind == 0 {
            let n = chars_of(o.name.as_str());
            n.len() > 0 && chars_eq(&n, name)
        } else if kind == 1 {
            o.pos.0 == pos.0 && o.pos.1 == pos.1 && o.size.0 == size.0 && o.size.1 == size.1
        } else if kind == 2 {
            covers_exec(o, pos)
        } else {
            o.size.0 == size.0 && o.size.1 == size.1
        };
        assert(hit == p(outs@[i as int]));
        if hit {
            return Some(i);
        }
        i = i + 1;
    }
    None
}

fn dup_output(o: &OutputInfo) -> (r: OutputInfo)
    ensures
        r.name@ == o.name@,
        r.pos == o.pos,
        r.size == o.size,
{
    OutputInfo { name: o.name.clone(), pos: o.pos, size: o.size }
}

/// Picks the output a captured stream shows (see [`spec_match_output`]); an
/// error names how many outputs there were when none fits.
pub fn match_output(
    outputs: &Vec<OutputInfo>,
    stream_size: Option<(u32, u32)>,
    stream_pos: Option<(i32, i32)>,
    mapping_id: Option<&str>,
) -> (r: Result<OutputInfo, String>)
    ensures
        match spec_match_output(
            outputs@,
            stream_size,
            stream_pos,
            match mapping_id {
                Some(n) => Some(n@),
                None => None,
            },
        ) {
            Some(k) => r matches Ok(o) && 0 <= k < outputs@.len() && o.name@ == outputs@[k].name@ && o.pos
                == outputs@[k].pos && o.size == outputs@[k].size,
            None => r matches Err(e) && e@ == "could not match the captured stream to a known output ("@ + dec_digits(
                outputs@.len() as nat,
            ) + " outputs available)"@,
        },
{
    let empty: Vec<char> = Vec::new();
    assert(empty@ == Seq::<char>::empty());
    if let Some(name) = mapping_id {
        let n = chars_of(name);
        if let Some(k) = find_output(outputs, 0, &n, (0, 0), (0, 0)) {
            proof {
                lemma_first_where_in(outputs@, pred(0, name@, (0, 0), (0, 0)), 0);
            }
            return Ok(dup_output(&outputs[k]));
        }
    }
    if let (Some(size), Some(pos)) = (stream_size, stream_pos) {
        if let Some(k) = find_output(outputs, 1, &empty, size, pos) {
            proof {
                lemma_first_where_in(outputs@, pred(1, empty@, size, pos), 0);
            }
            return Ok(dup_output(&outputs[k]));
        }
        if let Some(k) = find_output(outputs, 2, &empty, size, pos) {
            proof {
                lemma_first_where_in(outputs@, pred(2, empty@, size, pos), 0);
            }
            return Ok(dup_output(&outputs[k]));
        }
        if let Some(k) = find_output(outputs, 3, &empty, size, pos) {
            proof {
                lemma_first_where_in(outputs@, pred(3, empty@, size, pos), 0);
            }
            return Ok(dup_output(&outputs[k]));
        }
    }
    if outputs.len() == 1 {
        return Ok(dup_output(&outputs[0]));
    }
    let mut msg: Vec<char> = Vec::new();
    push_str(&mut msg, "could not match the captured stream to a known output (");
    let digits = fmt_u64(outputs.len() as u64);
    push_all(&mut msg, &digits);
    push_str(&mut msg, " outputs available)");
    Err(string_of(&msg))
}

proof fn lemma_first_where_in(outs: Seq<OutputInfo>, p: spec_fn(OutputInfo) -> bool, from: int)
    ensures
        first_where(outs, p, from) matches Some(k) ==> from <= k < outs.len() && p(outs[k]),
    decreases outs.len() - from,
{
    if 0 <= from < outs.len() && !p(outs[from]) {
        lemma_first_where_in(outs, p, from + 1);
    }
}

} // verus!
