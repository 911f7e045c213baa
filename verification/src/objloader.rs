//! The wavefront-style scene loader: turns the lines of an `obj`-like
//! model description into the scene hierarchy, or fails the whole load
//! with a structured error.
//!
//! Coordinates are parsed as plain decimals into fixed point, rounding
//! toward zero; exponent notation is outside this loader's grammar and
//! aborts the load. Face records reference earlier positions, texture
//! coordinates and normals by 1-based index; any index that does not
//! resolve aborts the load, so a loaded scene is always fully linked.

use vstd::prelude::*;

use crate::fixed::COORD_LIMIT;
use crate::fixed::FP_ONE;
use crate::fixed::trunc_div;
use crate::venom_core::Mesh;
use crate::venom_core::Model;
use crate::venom_core::Scalar;
use crate::venom_core::Scene;
use crate::venom_core::Vertex;
use crate::venom_core::vertex_bounded;

verus! {

/// Why a load was aborted.
#[derive(Debug, Clone, Copy, PartialEq, Eq)]
pub enum ObjError {
    /// A record is too short or otherwise not of its command's shape.
    MalformedCommand,
    /// A coordinate is not a plain decimal this loader can hold.
    BadNumber,
    /// A face reference is not a plain positive integer.
    BadFaceIndex,
    /// A face references a vertex, texture or normal that is not there.
    FaceIndexOutOfRange,
}

/// A model as the parser's specification sees it: a name and the
/// vertex sequences of its meshes.
pub struct ModelView {
    pub name: Seq<u8>,
    pub meshes: Seq<Seq<Vertex>>,
}

/// The view of a loaded model.
pub open spec fn model_view(m: Model) -> ModelView {
    ModelView { name: m.name@, meshes: m.meshes@.map_values(|mesh: Mesh| mesh.vertices@) }
}

/// The view of a loaded scene.
pub open spec fn scene_view(s: Scene) -> Seq<ModelView> {
    s.models@.map_values(|m: Model| model_view(m))
}

/// Whitespace that separates record fields.
pub open spec fn is_ws(c: u8) -> bool {
    c == 32 || c == 9 || c == 13
}

/// A decimal digit.
pub open spec fn is_digit(c: u8) -> bool {
    48 <= c <= 57
}

/// The length of the field starting at the head of `s`: the bytes up
/// to the first whitespace.
pub open spec fn token_len(s: Seq<u8>) -> int
    decreases s.len(),
{
    if s.len() == 0 || is_ws(s[0]) {
        0
    } else {
        1 + token_len(s.drop_first())
    }
}

/// The field length never leaves the sequence.
pub proof fn lemma_token_len(s: Seq<u8>)
    ensures
        0 <= token_len(s) <= s.len(),
    decreases s.len(),
{
    if s.len() == 0 || is_ws(s[0]) {
    } else {
        lemma_token_len(s.drop_first());
    }
}

/// The whitespace-separated fields of one record, in order.
pub open spec fn spec_tokens(s: Seq<u8>) -> Seq<Seq<u8>>
    decreases s.len(),
    via spec_tokens_dec
{
    if s.len() == 0 {
        Seq::empty()
    } else if is_ws(s[0]) {
        spec_tokens(s.drop_first())
    } else {
        seq![s.take(token_len(s))] + spec_tokens(s.skip(token_len(s)))
    }
}

#[via_fn]
proof fn spec_tokens_dec(s: Seq<u8>) {
    lemma_token_len(s);
    if s.len() > 0 && !is_ws(s[0]) {
        lemma_token_len(s.drop_first());
        assert(token_len(s) >= 1);
    }
}

/// The first position at or after `from` holding `c`, or the length.
pub open spec fn spec_find(s: Seq<u8>, from: int, c: u8) -> int
    decreases s.len() - from,
{
    if from < 0 || from >= s.len() {
        s.len() as int
    } else if s[from] == c {
        from
    } else {
        spec_find(s, from + 1, c)
    }
}

/// Where the found position lies, and that nothing before it matches.
pub proof fn lemma_spec_find(s: Seq<u8>, from: int, c: u8)
    requires
        0 <= from <= s.len(),
    ensures
        from <= spec_find(s, from, c) <= s.len(),
        spec_find(s, from, c) < s.len() ==> s[spec_find(s, from, c)] == c,
        forall|j: int| from <= j < spec_find(s, from, c) ==> s[j] != c,
    decreases s.len() - from,
{
    if from < s.len() && s[from] != c {
        lemma_spec_find(s, from + 1, c);
    }
}

/// Copy one byte range out of a record.
fn copy_range(line: &Vec<u8>, a: usize, b: usize) -> (r: Vec<u8>)
    requires
        a <= b <= line@.len(),
    ensures
        r@ == line@.subrange(a as int, b as int),
{
    let mut r: Vec<u8> = Vec::new();
    let mut i: usize = a;
    while i < b
        invariant
            a <= i <= b <= line@.len(),
            r@ == line@.subrange(a as int, i as int),
        decreases b - i,
    {
        r.push(line[i]);
        proof {
            assert(r@ =~= line@.subrange(a as int, i as int + 1));
        }
        i = i + 1;
    }
    r
}

/// The end of the field starting at `i`.
fn token_end(line: &Vec<u8>, i: usize) -> (end: usize)
    requires
        i <= line@.len(),
    ensures
        i <= end <= line@.len(),
        end - i == token_len(line@.skip(i as int)),
{
    let mut end: usize = i;
    while end < line.len() && !(line[end] == 32 || line[end] == 9 || line[end] == 13)
        invariant
            i <= end <= line@.len(),
            token_len(line@.skip(i as int)) == (end - i) + token_len(line@.skip(end as int)),
        decreases line@.len() - end,
    {
        proof {
            assert(line@.skip(end as int).drop_first() =~= line@.skip(end as int + 1));
            lemma_token_len(line@.skip(end as int + 1));
        }
        end = end + 1;
    }
    proof {
        lemma_token_len(line@.skip(i as int));
    }
    end
}

/// Split one record into its whitespace-separated fields.
fn tokenize_from(line: &Vec<u8>, i: usize) -> (toks: Vec<Vec<u8>>)
    requires
        i <= line@.len(),
    ensures
        toks@.map_values(|t: Vec<u8>| t@) == spec_tokens(line@.skip(i as int)),
    decreases line@.len() - i,
{
    if i == line.len() {
        let toks: Vec<Vec<u8>> = Vec::new();
        proof {
            assert(line@.skip(i as int) =~= Seq::<u8>::empty());
            assert(toks@.map_values(|t: Vec<u8>| t@) =~= spec_tokens(line@.skip(i as int)));
        }
        toks
    } else if line[i] == 32 || line[i] == 9 || line[i] == 13 {
        let toks = tokenize_from(line, i + 1);
        proof {
            assert(line@.skip(i as int).drop_first() =~= line@.skip(i as int + 1));
        }
        toks
    } else {
        let end = token_end(line, i);
        proof {
            assert(token_len(line@.skip(i as int)) >= 1) by {
                assert(!is_ws(line@.skip(i as int)[0]));
                lemma_token_len(line@.skip(i as int).drop_first());
            }
        }
        let tok = copy_range(line, i, end);
        let rest = tokenize_from(line, end);
        let mut toks: Vec<Vec<u8>> = Vec::new();
        toks.push(tok);
        let mut rest = rest;
        toks.append(&mut rest);
        proof {
            let tail = line@.skip(i as int);
            assert(tok@ =~= tail.take(token_len(tail)));
            assert(line@.skip(end as int) =~= tail.skip(token_len(tail)));
            assert(toks@.map_values(|t: Vec<u8>| t@) =~= spec_tokens(tail));
        }
        toks
    }
}

/// Split one record into its fields.
pub fn tokenize(line: &Vec<u8>) -> (toks: Vec<Vec<u8>>)
    ensures
        toks@.map_values(|t: Vec<u8>| t@) == spec_tokens(line@),
{
    let toks = tokenize_from(line, 0);
    proof {
        assert(line@.skip(0) =~= line@);
    }
    toks
}

/// The running state of the decimal scanner: digits seen so far on
/// both sides of the dot, folded left to right.
pub struct ScanState {
    pub ok: bool,
    pub saw_digit: bool,
    pub saw_dot: bool,
    pub int_val: int,
    pub frac_val: int,
    pub frac_len: int,
}

/// The scanner before any byte.
pub open spec fn scan_init() -> ScanState {
    ScanState { ok: true, saw_digit: false, saw_dot: false, int_val: 0, frac_val: 0, frac_len: 0 }
}

/// One byte of a decimal: a digit extends the side the scanner is on,
/// one dot switches sides, anything else is rejected. The integer part
/// is capped at ten million, the fraction at twelve digits.
pub open spec fn scan_step(st: ScanState, c: u8) -> ScanState {
    if !st.ok {
        st
    } else if is_digit(c) {
        if st.saw_dot {
            if st.frac_len >= 12 {
                ScanState { ok: false, ..st }
            } else {
                ScanState {
                    saw_digit: true,
                    frac_val: st.frac_val * 10 + (c - 48),
                    frac_len: st.frac_len + 1,
                    ..st
                }
            }
        } else {
            if st.int_val * 10 + (c - 48) > 10_000_000 {
                ScanState { ok: false, ..st }
            } else {
                ScanState { saw_digit: true, int_val: st.int_val * 10 + (c - 48), ..st }
            }
        }
    } else if c == 46 {
        if st.saw_dot {
            ScanState { ok: false, ..st }
        } else {
            ScanState { saw_dot: true, ..st }
        }
    } else {
        ScanState { ok: false, ..st }
    }
}

/// The scanner after the first `n` bytes.
pub open spec fn scan_prefix(s: Seq<u8>, n: int) -> ScanState
    decreases n,
{
    if n <= 0 {
        scan_init()
    } else {
        scan_step(scan_prefix(s, n - 1), s[n - 1])
    }
}

/// Ten to the `n`-th.
pub open spec fn pow10(n: int) -> int
    decreases n,
{
    if n <= 0 {
        1
    } else {
        10 * pow10(n - 1)
    }
}

/// Ten to the `n`-th is positive.
pub proof fn lemma_pow10_pos(n: int)
    ensures
        pow10(n) >= 1,
    decreases n,
{
    if n > 0 {
        lemma_pow10_pos(n - 1);
    }
}

/// Ten to the `n`-th grows with `n`.
pub proof fn lemma_pow10_monotone(a: int, b: int)
    requires
        a <= b,
    ensures
        pow10(a) <= pow10(b),
    decreases b - a,
{
    if a < b {
        lemma_pow10_monotone(a, b - 1);
        lemma_pow10_pos(b - 1);
    }
}

/// The cap on a twelve-digit fraction.
pub proof fn lemma_pow10_12()
    ensures
        pow10(12) == 1_000_000_000_000,
{
    reveal_with_fuel(pow10, 13);
}

/// The cap on a fifteen-digit index.
pub proof fn lemma_pow10_15()
    ensures
        pow10(15) == 1_000_000_000_000_000,
{
    reveal_with_fuel(pow10, 16);
}

/// The fixed-point value of a decimal token, rounded toward zero, or
/// nothing where the token is not a decimal this loader can hold: an
/// optional sign, then digits with at most one dot among them, at
/// least one digit, integer part up to ten million, fraction up to
/// twelve digits, magnitude up to the coordinate limit. Exponent
/// notation is not part of this loader's grammar: a coordinate such
/// as `1e3` is rejected, deliberately, so that every accepted value
/// has this one exact reading.
pub open spec fn spec_parse_scalar(s: Seq<u8>) -> Option<Scalar> {
    let neg = s.len() > 0 && s[0] == 45;
    let body = if s.len() > 0 && (s[0] == 45 || s[0] == 43) {
        s.drop_first()
    } else {
        s
    };
    let st = scan_prefix(body, body.len() as int);
    if st.ok && st.saw_digit {
        let mag = st.int_val * (FP_ONE as int) + trunc_div(
            st.frac_val * (FP_ONE as int),
            pow10(st.frac_len),
        );
        if mag <= COORD_LIMIT as int {
            Some((if neg { -mag } else { mag }) as i64)
        } else {
            None
        }
    } else {
        None
    }
}

/// The value of a run of digits, most significant first.
pub open spec fn digits_val(s: Seq<u8>) -> int
    decreases s.len(),
{
    if s.len() == 0 {
        0
    } else {
        digits_val(s.drop_last()) * 10 + (s.last() - 48)
    }
}

/// Every byte a digit.
pub open spec fn all_digits(s: Seq<u8>) -> bool {
    forall|j: int| 0 <= j < s.len() ==> is_digit(#[trigger] s[j])
}

/// A face reference: one to fifteen digits, nothing else.
pub open spec fn spec_parse_index(s: Seq<u8>) -> Option<int> {
    if 1 <= s.len() <= 15 && all_digits(s) {
        Some(digits_val(s))
    } else {
        None
    }
}

/// Parse one coordinate token into fixed point.
fn parse_scalar(tok: &Vec<u8>) -> (r: Option<Scalar>)
    ensures
        r == spec_parse_scalar(tok@),
        match r {
            Option::Some(v) => crate::fixed::spec_abs(v as int) <= COORD_LIMIT as int,
            Option::None => true,
        },
{
    let ghost whole = tok@;
    let neg = tok.len() > 0 && tok[0] == 45;
    let off: usize = if tok.len() > 0 && (tok[0] == 45 || tok[0] == 43) {
        1
    } else {
        0
    };
    let ghost body = if whole.len() > 0 && (whole[0] == 45 || whole[0] == 43) {
        whole.drop_first()
    } else {
        whole
    };
    proof {
        assert(body =~= whole.skip(off as int));
    }
    let mut ok = true;
    let mut saw_digit = false;
    let mut saw_dot = false;
    let mut int_val: i64 = 0;
    let mut frac_val: i64 = 0;
    let mut frac_len: u32 = 0;
    let mut j: usize = off;
    while j < tok.len()
        invariant
            off <= j <= tok@.len(),
            body == tok@.skip(off as int),
            body.len() == tok@.len() - off,
            ok == scan_prefix(body, j - off).ok,
            saw_digit == scan_prefix(body, j - off).saw_digit,
            saw_dot == scan_prefix(body, j - off).saw_dot,
            int_val as int == scan_prefix(body, j - off).int_val,
            frac_val as int == scan_prefix(body, j - off).frac_val,
            frac_len as int == scan_prefix(body, j - off).frac_len,
            0 <= int_val <= 10_000_000,
            0 <= frac_len <= 12,
            0 <= frac_val,
            (frac_val as int) < pow10(frac_len as int),
            pow10(frac_len as int) <= 1_000_000_000_000,
        decreases tok@.len() - j,
    {
        let c = tok[j];
        proof {
            assert(body[j - off] == tok@[j as int]);
            assert(scan_prefix(body, j + 1 - off) == scan_step(scan_prefix(body, j - off), c));
            if frac_len < 12 {
                assert(pow10(frac_len as int + 1) == 10 * pow10(frac_len as int));
                lemma_pow10_monotone(frac_len as int + 1, 12);
                lemma_pow10_12();
            }
        }
        if !ok {
        } else if c >= 48 && c <= 57 {
            if saw_dot {
                if frac_len >= 12 {
                    ok = false;
                } else {
                    saw_digit = true;
                    frac_val = frac_val * 10 + ((c - 48) as i64);
                    frac_len = frac_len + 1;
                }
            } else {
                if int_val * 10 + ((c - 48) as i64) > 10_000_000 {
                    ok = false;
                } else {
                    saw_digit = true;
                    int_val = int_val * 10 + ((c - 48) as i64);
                }
            }
        } else if c == 46 {
            if saw_dot {
                ok = false;
            } else {
                saw_dot = true;
            }
        } else {
            ok = false;
        }
        j = j + 1;
    }
    if !(ok && saw_digit) {
        return None;
    }
    let mut p: i64 = 1;
    let mut k: u32 = 0;
    while k < frac_len
        invariant
            k <= frac_len <= 12,
            p as int == pow10(k as int),
            1 <= p,
            p as int <= pow10(frac_len as int),
            pow10(frac_len as int) <= 1_000_000_000_000,
        decreases frac_len - k,
    {
        proof {
            assert(pow10(k as int + 1) == 10 * pow10(k as int));
            lemma_pow10_monotone(k as int + 1, frac_len as int);
        }
        p = p * 10;
        k = k + 1;
    }
    let frac_fp: i64 = ((frac_val as u64 * (FP_ONE as u64)) / (p as u64)) as i64;
    proof {
        crate::fixed::lemma_trunc_div_nonneg((frac_val as int) * (FP_ONE as int), p as int);
        vstd::arithmetic::div_mod::lemma_div_nonincreasing(
            (frac_val as int) * (FP_ONE as int),
            p as int,
        );
    }
    let mag: i64 = int_val * FP_ONE + frac_fp;
    if mag > COORD_LIMIT {
        return None;
    }
    if neg {
        Some(-mag)
    } else {
        Some(mag)
    }
}

/// Parse one face reference token.
fn parse_index(tok: &Vec<u8>) -> (r: Option<u64>)
    ensures
        match r {
            Option::Some(v) => spec_parse_index(tok@) == Option::<int>::Some(v as int),
            Option::None => spec_parse_index(tok@) == Option::<int>::None,
        },
{
    if tok.len() < 1 || tok.len() > 15 {
        return None;
    }
    let mut acc: u64 = 0;
    let mut j: usize = 0;
    while j < tok.len()
        invariant
            j <= tok@.len() <= 15,
            all_digits(tok@.take(j as int)),
            acc as int == digits_val(tok@.take(j as int)),
            (acc as int) < pow10(j as int),
            pow10(j as int) <= 1_000_000_000_000_000,
        decreases tok@.len() - j,
    {
        let c = tok[j];
        if c < 48 || c > 57 {
            proof {
                assert(!is_digit(tok@[j as int]));
            }
            return None;
        }
        proof {
            assert(tok@.take(j as int + 1).drop_last() =~= tok@.take(j as int));
            assert(tok@.take(j as int + 1).last() == tok@[j as int]);
            assert(all_digits(tok@.take(j as int + 1)));
            assert(pow10(j as int + 1) == 10 * pow10(j as int));
            lemma_pow10_monotone(j as int + 1, 15);
            lemma_pow10_15();
        }
        acc = acc * 10 + ((c - 48) as u64);
        j = j + 1;
    }
    proof {
        assert(tok@.take(j as int) =~= tok@);
    }
    Some(acc)
}

/// The first position at or after `from` holding `c`, or the length.
fn find_from(line: &Vec<u8>, from: usize, c: u8) -> (pos: usize)
    requires
        from <= line@.len(),
    ensures
        pos as int == spec_find(line@, from as int, c),
{
    let mut pos: usize = from;
    while pos < line.len() && line[pos] != c
        invariant
            from <= pos <= line@.len(),
            spec_find(line@, from as int, c) == spec_find(line@, pos as int, c),
        decreases line@.len() - pos,
    {
        pos = pos + 1;
    }
    pos
}

/// All vertex attributes of a loaded sequence bounded.
pub open spec fn points_bounded(s: Seq<(Scalar, Scalar, Scalar)>) -> bool {
    forall|k: int| 0 <= k < s.len() ==> crate::venom_core::point_bounded(#[trigger] s[k])
}

/// All texture coordinates of a loaded sequence bounded.
pub open spec fn uvs_bounded(s: Seq<(Scalar, Scalar)>) -> bool {
    forall|k: int|
        0 <= k < s.len() ==> crate::fixed::spec_abs((#[trigger] s[k]).0 as int)
            <= COORD_LIMIT as int && crate::fixed::spec_abs(s[k].1 as int) <= COORD_LIMIT as int
}

/// The loader's state between records, as the specification sees it.
pub struct LoaderState {
    pub positions: Seq<(Scalar, Scalar, Scalar)>,
    pub normals: Seq<(Scalar, Scalar, Scalar)>,
    pub uvs: Seq<(Scalar, Scalar)>,
    pub mesh: Seq<Vertex>,
    pub meshes: Seq<Seq<Vertex>>,
    pub name: Seq<u8>,
    pub scene: Seq<ModelView>,
}

/// The loader before any record.
pub open spec fn loader_init() -> LoaderState {
    LoaderState {
        positions: Seq::empty(),
        normals: Seq::empty(),
        uvs: Seq::empty(),
        mesh: Seq::empty(),
        meshes: Seq::empty(),
        name: Seq::empty(),
        scene: Seq::empty(),
    }
}

/// One face corner `p/u/n`: three 1-based references, fields past the
/// third separator ignored. A reference that is no plain integer is a
/// bad index; one that does not resolve aborts with an out-of-range
/// error.
pub open spec fn spec_face_vertex(st: LoaderState, tok: Seq<u8>) -> Result<Vertex, ObjError> {
    let i1 = spec_find(tok, 0, 47);
    let i2 = spec_find(tok, i1 + 1, 47);
    let i3 = spec_find(tok, i2 + 1, 47);
    if i1 >= tok.len() || i2 >= tok.len() {
        Err(ObjError::MalformedCommand)
    } else {
        match (spec_parse_index(tok.subrange(0, i1)), spec_parse_index(
            tok.subrange(i1 + 1, i2),
        ), spec_parse_index(tok.subrange(i2 + 1, i3))) {
            (Some(pi), Some(ui), Some(ni)) => {
                if 1 <= pi <= st.positions.len() && 1 <= ui <= st.uvs.len() && 1 <= ni
                    <= st.normals.len() {
                    Ok(
                        Vertex {
                            position: st.positions[pi - 1],
                            uv: st.uvs[ui - 1],
                            normal: st.normals[ni - 1],
                        },
                    )
                } else {
                    Err(ObjError::FaceIndexOutOfRange)
                }
            },
            _ => Err(ObjError::BadFaceIndex),
        }
    }
}

/// Fold the corners of a face record into the current mesh, in order.
pub open spec fn spec_face_fold(st: LoaderState, toks: Seq<Seq<u8>>, k: int) -> Result<
    Seq<Vertex>,
    ObjError,
>
    decreases toks.len() - k,
{
    if k < 0 || k >= toks.len() {
        Ok(st.mesh)
    } else {
        match spec_face_vertex(st, toks[k]) {
            Ok(v) => spec_face_fold(
                LoaderState { mesh: st.mesh.push(v), ..st },
                toks,
                k + 1,
            ),
            Err(e) => Err(e),
        }
    }
}

/// One record of the description. Unknown commands are ignored;
/// `v`, `vn` and `vt` append attributes, `f` appends corners to the
/// current mesh, `g` finishes the current mesh, `o` finishes the
/// current model and names the next one.
pub open spec fn spec_line_step(st: LoaderState, line: Seq<u8>) -> Result<
    LoaderState,
    ObjError,
> {
    let toks = spec_tokens(line);
    if toks.len() == 0 {
        Ok(st)
    } else if toks[0] == seq![118u8] {
        // "v"
        if toks.len() < 4 {
            Err(ObjError::MalformedCommand)
        } else {
            match (spec_parse_scalar(toks[1]), spec_parse_scalar(toks[2]), spec_parse_scalar(
                toks[3],
            )) {
                (Some(x), Some(y), Some(z)) => Ok(
                    LoaderState { positions: st.positions.push((x, y, z)), ..st },
                ),
                _ => Err(ObjError::BadNumber),
            }
        }
    } else if toks[0] == seq![118u8, 110u8] {
        // "vn"
        if toks.len() < 4 {
            Err(ObjError::MalformedCommand)
        } else {
            match (spec_parse_scalar(toks[1]), spec_parse_scalar(toks[2]), spec_parse_scalar(
                toks[3],
            )) {
                (Some(x), Some(y), Some(z)) => Ok(
                    LoaderState { normals: st.normals.push((x, y, z)), ..st },
                ),
                _ => Err(ObjError::BadNumber),
            }
        }
    } else if toks[0] == seq![118u8, 116u8] {
        // "vt"
        if toks.len() < 3 {
            Err(ObjError::MalformedCommand)
        } else {
            match (spec_parse_scalar(toks[1]), spec_parse_scalar(toks[2])) {
                (Some(u), Some(v)) => Ok(LoaderState { uvs: st.uvs.push((u, v)), ..st }),
                _ => Err(ObjError::BadNumber),
            }
        }
    } else if toks[0] == seq![102u8] {
        // "f"
        match spec_face_fold(st, toks, 1) {
            Ok(mesh) => Ok(LoaderState { mesh, ..st }),
            Err(e) => Err(e),
        }
    } else if toks[0] == seq![111u8] {
        // "o"
        if toks.len() < 2 {
            Err(ObjError::MalformedCommand)
        } else {
            let st1 = if st.meshes.len() > 0 {
                LoaderState {
                    scene: st.scene.push(ModelView { name: st.name, meshes: st.meshes }),
                    meshes: Seq::empty(),
                    ..st
                }
            } else {
                st
            };
            Ok(LoaderState { name: toks[1], ..st1 })
        }
    } else if toks[0] == seq![103u8] {
        // "g"
        if st.mesh.len() > 0 {
            Ok(LoaderState { meshes: st.meshes.push(st.mesh), mesh: Seq::empty(), ..st })
        } else {
            Ok(st)
        }
    } else {
        Ok(st)
    }
}

/// The loader's state after the first `n` records.
pub open spec fn spec_parse_prefix(lines: Seq<Seq<u8>>, n: int) -> Result<
    LoaderState,
    ObjError,
>
    decreases n,
{
    if n <= 0 {
        Ok(loader_init())
    } else {
        match spec_parse_prefix(lines, n - 1) {
            Ok(st) => spec_line_step(st, lines[n - 1]),
            Err(e) => Err(e),
        }
    }
}

/// After the last record the pending mesh and model, if any, join the
/// scene.
pub open spec fn spec_finalize(st: LoaderState) -> Seq<ModelView> {
    let meshes1 = if st.mesh.len() > 0 {
        st.meshes.push(st.mesh)
    } else {
        st.meshes
    };
    if meshes1.len() > 0 {
        st.scene.push(ModelView { name: st.name, meshes: meshes1 })
    } else {
        st.scene
    }
}

/// The scene a description denotes, or the error that aborts its load.
pub open spec fn spec_parse_obj(lines: Seq<Seq<u8>>) -> Result<Seq<ModelView>, ObjError> {
    match spec_parse_prefix(lines, lines.len() as int) {
        Ok(st) => Ok(spec_finalize(st)),
        Err(e) => Err(e),
    }
}

/// An error never recovers: once a prefix fails, every longer prefix
/// fails the same way.
pub proof fn lemma_parse_error_sticks(lines: Seq<Seq<u8>>, n: int, m: int, e: ObjError)
    requires
        0 <= n <= m <= lines.len(),
        spec_parse_prefix(lines, n) == Result::<LoaderState, ObjError>::Err(e),
    ensures
        spec_parse_prefix(lines, m) == Result::<LoaderState, ObjError>::Err(e),
    decreases m - n,
{
    if n < m {
        lemma_parse_error_sticks(lines, n, m - 1, e);
    }
}

/// One face corner, executed against the loaded attribute tables.
fn face_vertex(
    positions: &Vec<(Scalar, Scalar, Scalar)>,
    normals: &Vec<(Scalar, Scalar, Scalar)>,
    uvs: &Vec<(Scalar, Scalar)>,
    tok: &Vec<u8>,
    Ghost(st): Ghost<LoaderState>,
) -> (r: Result<Vertex, ObjError>)
    requires
        st.positions == positions@,
        st.normals == normals@,
        st.uvs == uvs@,
    ensures
        r == spec_face_vertex(st, tok@),
{
    let i1 = find_from(tok, 0, 47);
    proof {
        lemma_spec_find(tok@, 0, 47);
    }
    if i1 == tok.len() {
        return Err(ObjError::MalformedCommand);
    }
    let i2 = find_from(tok, i1 + 1, 47);
    proof {
        lemma_spec_find(tok@, i1 as int + 1, 47);
    }
    if i2 == tok.len() {
        return Err(ObjError::MalformedCommand);
    }
    let i3 = find_from(tok, i2 + 1, 47);
    proof {
        lemma_spec_find(tok@, i2 as int + 1, 47);
    }
    let pt = copy_range(tok, 0, i1);
    let ut = copy_range(tok, i1 + 1, i2);
    let nt = copy_range(tok, i2 + 1, i3);
    let pr = parse_index(&pt);
    let ur = parse_index(&ut);
    let nr = parse_index(&nt);
    match (pr, ur, nr) {
        (Some(pi), Some(ui), Some(ni)) => {
            if 1 <= pi && pi <= positions.len() as u64 && 1 <= ui && ui <= uvs.len() as u64 && 1
                <= ni && ni <= normals.len() as u64 {
                Ok(
                    Vertex {
                        position: positions[(pi - 1) as usize],
                        uv: uvs[(ui - 1) as usize],
                        normal: normals[(ni - 1) as usize],
                    },
                )
            } else {
                Err(ObjError::FaceIndexOutOfRange)
            }
        },
        _ => Err(ObjError::BadFaceIndex),
    }
}

/// A corner built from bounded attribute tables is bounded.
proof fn lemma_face_vertex_bounded(st: LoaderState, tok: Seq<u8>, v: Vertex)
    requires
        points_bounded(st.positions),
        points_bounded(st.normals),
        uvs_bounded(st.uvs),
        spec_face_vertex(st, tok) == Result::<Vertex, ObjError>::Ok(v),
    ensures
        vertex_bounded(v),
{
    let i1 = spec_find(tok, 0, 47);
    let i2 = spec_find(tok, i1 + 1, 47);
    let i3 = spec_find(tok, i2 + 1, 47);
    match (spec_parse_index(tok.subrange(0, i1)), spec_parse_index(tok.subrange(i1 + 1, i2)),
    spec_parse_index(tok.subrange(i2 + 1, i3))) {
        (Option::Some(pi), Option::Some(ui), Option::Some(ni)) => {
            assert(crate::venom_core::point_bounded(st.positions[pi - 1]));
            assert(crate::venom_core::point_bounded(st.normals[ni - 1]));
            assert(crate::fixed::spec_abs(st.uvs[ui - 1].0 as int) <= COORD_LIMIT as int);
        },
        _ => {},
    }
}

impl Scene {
    /// Load a scene from the records of a model description, one line
    /// per entry. The whole load fails on the first malformed record or
    /// unresolvable face reference; a returned scene is complete, fully
    /// linked, and all its coordinates are bounded.
    pub fn parse_obj(lines: &Vec<Vec<u8>>) -> (r: Result<Scene, ObjError>)
        ensures
            match r {
                Ok(scene) => spec_parse_obj(lines@.map_values(|l: Vec<u8>| l@)) == Result::<
                    Seq<ModelView>,
                    ObjError,
                >::Ok(scene_view(scene)) && crate::venom_core::scene_bounded(scene),
                Err(e) => spec_parse_obj(lines@.map_values(|l: Vec<u8>| l@)) == Result::<
                    Seq<ModelView>,
                    ObjError,
                >::Err(e),
            },
    {
        let ghost lv = lines@.map_values(|l: Vec<u8>| l@);
        let mut positions: Vec<(Scalar, Scalar, Scalar)> = Vec::new();
        let mut normals: Vec<(Scalar, Scalar, Scalar)> = Vec::new();
        let mut uvs: Vec<(Scalar, Scalar)> = Vec::new();
        let mut mesh: Vec<Vertex> = Vec::new();
        let mut meshes: Vec<Mesh> = Vec::new();
        let mut name: Vec<u8> = Vec::new();
        let mut models: Vec<Model> = Vec::new();
        let mut li: usize = 0;
        proof {
            assert(meshes@.map_values(|m: Mesh| m.vertices@) =~= Seq::<Seq<Vertex>>::empty());
            assert(models@.map_values(|m: Model| model_view(m)) =~= Seq::<ModelView>::empty());
        }
        while li < lines.len()
            invariant
                lv == lines@.map_values(|l: Vec<u8>| l@),
                li <= lines@.len(),
                spec_parse_prefix(lv, li as int) == Result::<LoaderState, ObjError>::Ok(
                    LoaderState {
                        positions: positions@,
                        normals: normals@,
                        uvs: uvs@,
                        mesh: mesh@,
                        meshes: meshes@.map_values(|m: Mesh| m.vertices@),
                        name: name@,
                        scene: models@.map_values(|m: Model| model_view(m)),
                    },
                ),
                points_bounded(positions@),
                points_bounded(normals@),
                uvs_bounded(uvs@),
                forall|k: int| 0 <= k < mesh@.len() ==> vertex_bounded(#[trigger] mesh@[k]),
                forall|j: int, k: int|
                    0 <= j < meshes@.len() && 0 <= k < meshes@[j].vertices@.len()
                        ==> vertex_bounded(#[trigger] meshes@[j].vertices@[k]),
                forall|m: int, j: int, k: int|
                    0 <= m < models@.len() && 0 <= j < models@[m].meshes@.len() && 0 <= k
                        < models@[m].meshes@[j].vertices@.len() ==> vertex_bounded(
                        #[trigger] models@[m].meshes@[j].vertices@[k],
                    ),
            decreases lines@.len() - li,
        {
            let ghost st = LoaderState {
                positions: positions@,
                normals: normals@,
                uvs: uvs@,
                mesh: mesh@,
                meshes: meshes@.map_values(|m: Mesh| m.vertices@),
                name: name@,
                scene: models@.map_values(|m: Model| model_view(m)),
            };
            let toks = tokenize(&lines[li]);
            let ghost toksv = spec_tokens(lv[li as int]);
            proof {
                assert(lines@[li as int]@ == lv[li as int]);
                assert(toks@.map_values(|t: Vec<u8>| t@) == toksv);
            }
            if toks.len() == 0 {
            } else if toks[0].len() == 1 && toks[0][0] == 118 {
                // "v"
                proof {
                    assert(toksv[0] =~= seq![118u8]);
                }
                if toks.len() < 4 {
                    proof {
                        lemma_parse_error_sticks(
                            lv,
                            li as int + 1,
                            lv.len() as int,
                            ObjError::MalformedCommand,
                        );
                    }
                    return Err(ObjError::MalformedCommand);
                }
                let rx = parse_scalar(&toks[1]);
                let ry = parse_scalar(&toks[2]);
                let rz = parse_scalar(&toks[3]);
                match (rx, ry, rz) {
                    (Some(x), Some(y), Some(z)) => {
                        positions.push((x, y, z));
                    },
                    _ => {
                        proof {
                            lemma_parse_error_sticks(
                                lv,
                                li as int + 1,
                                lv.len() as int,
                                ObjError::BadNumber,
                            );
                        }
                        return Err(ObjError::BadNumber);
                    },
                }
            } else if toks[0].len() == 2 && toks[0][0] == 118 && toks[0][1] == 110 {
                // "vn"
                proof {
                    assert(toksv[0] =~= seq![118u8, 110u8]);
                }
                if toks.len() < 4 {
                    proof {
                        lemma_parse_error_sticks(
                            lv,
                            li as int + 1,
                            lv.len() as int,
                            ObjError::MalformedCommand,
                        );
                    }
                    return Err(ObjError::MalformedCommand);
                }
                let rx = parse_scalar(&toks[1]);
                let ry = parse_scalar(&toks[2]);
                let rz = parse_scalar(&toks[3]);
                match (rx, ry, rz) {
                    (Some(x), Some(y), Some(z)) => {
                        normals.push((x, y, z));
                    },
                    _ => {
                        proof {
                            lemma_parse_error_sticks(
                                lv,
                                li as int + 1,
                                lv.len() as int,
                                ObjError::BadNumber,
                            );
                        }
                        return Err(ObjError::BadNumber);
                    },
                }
            } else if toks[0].len() == 2 && toks[0][0] == 118 && toks[0][1] == 116 {
                // "vt"
                proof {
                    assert(toksv[0] =~= seq![118u8, 116u8]);
                }
                if toks.len() < 3 {
                    proof {
                        lemma_parse_error_sticks(
                            lv,
                            li as int + 1,
                            lv.len() as int,
                            ObjError::MalformedCommand,
                        );
                    }
                    return Err(ObjError::MalformedCommand);
                }
                let ru = parse_scalar(&toks[1]);
                let rv = parse_scalar(&toks[2]);
                match (ru, rv) {
                    (Some(u), Some(v)) => {
                        uvs.push((u, v));
                    },
                    _ => {
                        proof {
                            lemma_parse_error_sticks(
                                lv,
                                li as int + 1,
                                lv.len() as int,
                                ObjError::BadNumber,
                            );
                        }
                        return Err(ObjError::BadNumber);
                    },
                }
            } else if toks[0].len() == 1 && toks[0][0] == 102 {
                // "f"
                proof {
                    assert(toksv[0] =~= seq![102u8]);
                }
                let mut k: usize = 1;
                while k < toks.len()
                    invariant
                        1 <= k <= toks@.len(),
                        li < lines@.len(),
                        lv == lines@.map_values(|l: Vec<u8>| l@),
                        toksv == spec_tokens(lv[li as int]),
                        toksv.len() >= 1,
                        toksv[0] == seq![102u8],
                        spec_parse_prefix(lv, li as int) == Result::<LoaderState, ObjError>::Ok(
                            st,
                        ),
                        toks@.map_values(|t: Vec<u8>| t@) == toksv,
                        st.positions == positions@,
                        st.normals == normals@,
                        st.uvs == uvs@,
                        spec_face_fold(st, toksv, 1) == spec_face_fold(
                            LoaderState { mesh: mesh@, ..st },
                            toksv,
                            k as int,
                        ),
                        points_bounded(positions@),
                        points_bounded(normals@),
                        uvs_bounded(uvs@),
                        forall|k2: int|
                            0 <= k2 < mesh@.len() ==> vertex_bounded(#[trigger] mesh@[k2]),
                    decreases toks@.len() - k,
                {
                    let ghost stk = LoaderState { mesh: mesh@, ..st };
                    let fv = face_vertex(&positions, &normals, &uvs, &toks[k], Ghost(stk));
                    match fv {
                        Ok(v) => {
                            proof {
                                assert(toks@[k as int]@ == toksv[k as int]);
                                lemma_face_vertex_bounded(stk, toksv[k as int], v);
                                assert(LoaderState { mesh: mesh@.push(v), ..st }
                                    == LoaderState { mesh: stk.mesh.push(v), ..stk });
                            }
                            mesh.push(v);
                        },
                        Err(e) => {
                            proof {
                                assert(toks@[k as int]@ == toksv[k as int]);
                                assert(spec_face_vertex(stk, toksv[k as int]) == Result::<
                                    Vertex,
                                    ObjError,
                                >::Err(e));
                                assert(spec_face_fold(stk, toksv, k as int) == Result::<
                                    Seq<Vertex>,
                                    ObjError,
                                >::Err(e));
                                assert(toksv[0][0] == 102u8);
                                assert(toksv[0] != seq![118u8]) by {
                                    if toksv[0] == seq![118u8] {
                                        assert(toksv[0][0] == 118u8);
                                    }
                                }
                                assert(toksv[0] != seq![118u8, 110u8]) by {
                                    if toksv[0] == seq![118u8, 110u8] {
                                        assert(toksv[0][0] == 118u8);
                                    }
                                }
                                assert(toksv[0] != seq![118u8, 116u8]) by {
                                    if toksv[0] == seq![118u8, 116u8] {
                                        assert(toksv[0][0] == 118u8);
                                    }
                                }
                                assert(spec_line_step(st, lv[li as int]) == Result::<
                                    LoaderState,
                                    ObjError,
                                >::Err(e));
                                assert(spec_parse_prefix(lv, li as int + 1) == Result::<
                                    LoaderState,
                                    ObjError,
                                >::Err(e));
                                lemma_parse_error_sticks(lv, li as int + 1, lv.len() as int, e);
                            }
                            return Err(e);
                        },
                    }
                    k = k + 1;
                }
            } else if toks[0].len() == 1 && toks[0][0] == 111 {
                // "o"
                proof {
                    assert(toksv[0] =~= seq![111u8]);
                }
                if toks.len() < 2 {
                    proof {
                        lemma_parse_error_sticks(
                            lv,
                            li as int + 1,
                            lv.len() as int,
                            ObjError::MalformedCommand,
                        );
                    }
                    return Err(ObjError::MalformedCommand);
                }
                if meshes.len() > 0 {
                    let ghost old_models = models@;
                    models.push(Model { meshes, name });
                    meshes = Vec::new();
                    name = Vec::new();
                    proof {
                        assert(models@.map_values(|m: Model| model_view(m)) =~= old_models.map_values(
                            |m: Model| model_view(m),
                        ).push(model_view(models@.last())));
                        assert(meshes@.map_values(|m: Mesh| m.vertices@) =~= Seq::<
                            Seq<Vertex>,
                        >::empty());
                    }
                }
                name = copy_range(&toks[1], 0, toks[1].len());
                proof {
                    assert(name@ =~= toksv[1]);
                }
            } else if toks[0].len() == 1 && toks[0][0] == 103 {
                // "g"
                proof {
                    assert(toksv[0] =~= seq![103u8]);
                }
                if mesh.len() > 0 {
                    let ghost old_meshes = meshes@;
                    meshes.push(Mesh { vertices: mesh });
                    mesh = Vec::new();
                    proof {
                        assert(meshes@.map_values(|m: Mesh| m.vertices@) =~= old_meshes.map_values(
                            |m: Mesh| m.vertices@,
                        ).push(meshes@.last().vertices@));
                    }
                }
            } else {
                proof {
                    assert(toksv[0] != seq![118u8]) by {
                        if toksv[0] == seq![118u8] {
                            assert(toksv[0].len() == 1 && toksv[0][0] == 118u8);
                        }
                    }
                    assert(toksv[0] != seq![118u8, 110u8]) by {
                        if toksv[0] == seq![118u8, 110u8] {
                            assert(toksv[0].len() == 2 && toksv[0][0] == 118u8 && toksv[0][1]
                                == 110u8);
                        }
                    }
                    assert(toksv[0] != seq![118u8, 116u8]) by {
                        if toksv[0] == seq![118u8, 116u8] {
                            assert(toksv[0].len() == 2 && toksv[0][0] == 118u8 && toksv[0][1]
                                == 116u8);
                        }
                    }
                    assert(toksv[0] != seq![102u8]) by {
                        if toksv[0] == seq![102u8] {
                            assert(toksv[0].len() == 1 && toksv[0][0] == 102u8);
                        }
                    }
                    assert(toksv[0] != seq![111u8]) by {
                        if toksv[0] == seq![111u8] {
                            assert(toksv[0].len() == 1 && toksv[0][0] == 111u8);
                        }
                    }
                    assert(toksv[0] != seq![103u8]) by {
                        if toksv[0] == seq![103u8] {
                            assert(toksv[0].len() == 1 && toksv[0][0] == 103u8);
                        }
                    }
                }
            }
            li = li + 1;
        }
        let ghost stf = LoaderState {
            positions: positions@,
            normals: normals@,
            uvs: uvs@,
            mesh: mesh@,
            meshes: meshes@.map_values(|m: Mesh| m.vertices@),
            name: name@,
            scene: models@.map_values(|m: Model| model_view(m)),
        };
        if mesh.len() > 0 {
            let ghost old_meshes = meshes@;
            meshes.push(Mesh { vertices: mesh });
            proof {
                assert(meshes@.map_values(|m: Mesh| m.vertices@) =~= old_meshes.map_values(
                    |m: Mesh| m.vertices@,
                ).push(meshes@.last().vertices@));
            }
        }
        proof {
            assert(meshes@.map_values(|m: Mesh| m.vertices@) == (if stf.mesh.len() > 0 {
                stf.meshes.push(stf.mesh)
            } else {
                stf.meshes
            }));
        }
        let ghost meshes1 = meshes@.map_values(|m: Mesh| m.vertices@);
        if meshes.len() > 0 {
            let ghost old_models = models@;
            models.push(Model { meshes, name });
            proof {
                assert(models@.map_values(|m: Model| model_view(m)) =~= old_models.map_values(
                    |m: Model| model_view(m),
                ).push(model_view(models@.last())));
                assert(model_view(models@.last()) == ModelView { name: stf.name, meshes: meshes1 });
            }
        }
        let scene = Scene { models };
        proof {
            assert(scene_view(scene) == spec_finalize(stf));
            crate::venom_core::lemma_models_verts_bounded(scene.models@);
        }
        Ok(scene)
    }
}

} // verus!
