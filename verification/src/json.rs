//! The structured-message layer: a tree of typed values and its
//! canonical byte encoding.
//!
//! A value is an object, an array, a string, a number, a boolean or
//! null. Strings are plain printable ASCII without quote or backslash
//! (the codec emits no escape sequences and treats one on receipt as a
//! decode error); numbers are kept as their decimal literal text, an
//! optional minus sign, digits, and at most one interior decimal
//! point, so the codec never rounds. The encoding is the familiar
//! brace/bracket text with no whitespace. The serializer produces
//! exactly [`spec_ser`] of the value; the parser is canonical: any
//! value it returns re-serializes to exactly the bytes received.

use vstd::prelude::*;

use crate::ChannelError;

verus! {

/// One structured value.
#[derive(Debug, PartialEq, Eq)]
pub enum Json {
    /// The null literal.
    Null,
    /// A boolean literal.
    Bool(bool),
    /// A number, kept as its decimal literal text.
    Num(Vec<u8>),
    /// A string of plain printable ASCII bytes.
    Str(Vec<u8>),
    /// An array of values.
    Arr(Vec<Json>),
    /// An object: fields in order, each a key and a value.
    Obj(Vec<(Vec<u8>, Json)>),
}

/// An ASCII decimal digit.
pub open spec fn is_digit(b: u8) -> bool {
    48 <= b <= 57
}

/// A byte allowed in a string: printable ASCII that needs no escape.
pub open spec fn str_byte_ok(b: u8) -> bool {
    32 <= b <= 126 && b != 34 && b != 92
}

/// A well-formed string: every byte plain printable ASCII.
pub open spec fn spec_str_ok(s: Seq<u8>) -> bool {
    forall|i: int| 0 <= i < s.len() ==> str_byte_ok(#[trigger] s[i])
}

/// A well-formed number literal: an optional minus sign, then digits
/// that start and end the rest, with at most one interior decimal
/// point.
pub open spec fn spec_num_ok(s: Seq<u8>) -> bool {
    let off: int = if s.len() > 0 && s[0] == 45 {
        1
    } else {
        0
    };
    &&& s.len() > off
    &&& is_digit(s[off])
    &&& is_digit(s[s.len() - 1])
    &&& (forall|i: int| off <= i < s.len() ==> (is_digit(#[trigger] s[i]) || s[i] == 46))
    &&& (forall|i: int, j: int|
        off <= i < j < s.len() && #[trigger] s[i] == 46 ==> #[trigger] s[j] != 46)
}

/// A well-formed value: every number and string in the tree is
/// well-formed, object keys included.
pub open spec fn spec_wf(v: Json) -> bool
    decreases v, 0int,
{
    match v {
        Json::Null => true,
        Json::Bool(_) => true,
        Json::Num(d) => spec_num_ok(d@),
        Json::Str(s) => spec_str_ok(s@),
        Json::Arr(xs) => forall|i: int| 0 <= i < xs@.len() ==> spec_wf(#[trigger] xs@[i]),
        Json::Obj(fs) => forall|i: int|
            0 <= i < fs@.len() ==> spec_str_ok((#[trigger] fs@[i]).0@) && spec_wf(fs@[i].1),
    }
}

/// The canonical encoding of a value.
pub open spec fn spec_ser(v: Json) -> Seq<u8>
    decreases v, 0int,
{
    match v {
        Json::Null => seq![110u8, 117u8, 108u8, 108u8],
        Json::Bool(b) => if b {
            seq![116u8, 114u8, 117u8, 101u8]
        } else {
            seq![102u8, 97u8, 108u8, 115u8, 101u8]
        },
        Json::Num(d) => d@,
        Json::Str(s) => seq![34u8] + s@ + seq![34u8],
        Json::Arr(xs) => seq![91u8] + spec_ser_arr(xs@) + seq![93u8],
        Json::Obj(fs) => seq![123u8] + spec_ser_obj(fs@) + seq![125u8],
    }
}

/// The comma-separated encodings of array elements.
pub open spec fn spec_ser_arr(xs: Seq<Json>) -> Seq<u8>
    decreases xs, 1int,
{
    if xs.len() == 0 {
        Seq::empty()
    } else if xs.len() == 1 {
        spec_ser(xs[0])
    } else {
        spec_ser(xs[0]) + seq![44u8] + spec_ser_arr(xs.drop_first())
    }
}

/// The encoding of one object field: quoted key, colon, value.
pub open spec fn spec_ser_field(f: (Vec<u8>, Json)) -> Seq<u8>
    decreases f, 1int,
{
    seq![34u8] + f.0@ + seq![34u8, 58u8] + spec_ser(f.1)
}

/// The comma-separated encodings of object fields.
pub open spec fn spec_ser_obj(fs: Seq<(Vec<u8>, Json)>) -> Seq<u8>
    decreases fs, 2int,
{
    if fs.len() == 0 {
        Seq::empty()
    } else if fs.len() == 1 {
        spec_ser_field(fs[0])
    } else {
        spec_ser_field(fs[0]) + seq![44u8] + spec_ser_obj(fs.drop_first())
    }
}

/// Appending an element extends the comma-separated encoding on the
/// right.
proof fn lemma_ser_arr_push(xs: Seq<Json>, v: Json)
    ensures
        spec_ser_arr(xs.push(v)) == if xs.len() == 0 {
            spec_ser(v)
        } else {
            spec_ser_arr(xs) + seq![44u8] + spec_ser(v)
        },
    decreases xs.len(),
{
    let p = xs.push(v);
    if xs.len() == 0 {
        assert(p.len() == 1 && p[0] == v);
    } else if xs.len() == 1 {
        assert(p.drop_first() =~= seq![v]);
        assert(spec_ser_arr(seq![v]) == spec_ser(v));
        assert(spec_ser_arr(p) == spec_ser(xs[0]) + seq![44u8] + spec_ser(v));
    } else {
        assert(p.drop_first() =~= xs.drop_first().push(v));
        lemma_ser_arr_push(xs.drop_first(), v);
        assert(spec_ser_arr(p) =~= spec_ser_arr(xs) + seq![44u8] + spec_ser(v));
    }
}

/// Appending a field extends the comma-separated encoding on the
/// right.
proof fn lemma_ser_obj_push(fs: Seq<(Vec<u8>, Json)>, f: (Vec<u8>, Json))
    ensures
        spec_ser_obj(fs.push(f)) == if fs.len() == 0 {
            spec_ser_field(f)
        } else {
            spec_ser_obj(fs) + seq![44u8] + spec_ser_field(f)
        },
    decreases fs.len(),
{
    let p = fs.push(f);
    if fs.len() == 0 {
        assert(p.len() == 1 && p[0] == f);
    } else if fs.len() == 1 {
        assert(p.drop_first() =~= seq![f]);
        assert(spec_ser_obj(seq![f]) == spec_ser_field(f));
        assert(spec_ser_obj(p) == spec_ser_field(fs[0]) + seq![44u8] + spec_ser_field(f));
    } else {
        assert(p.drop_first() =~= fs.drop_first().push(f));
        lemma_ser_obj_push(fs.drop_first(), f);
        assert(spec_ser_obj(p) =~= spec_ser_obj(fs) + seq![44u8] + spec_ser_field(f));
    }
}

/// Checks a number literal for well-formedness.
fn check_num(d: &[u8]) -> (r: bool)
    ensures
        r == spec_num_ok(d@),
{
    let n = d.len();
    if n == 0 {
        return false;
    }
    let off: usize = if d[0] == 45 {
        1
    } else {
        0
    };
    if n == off {
        return false;
    }
    if !(48 <= d[off] && d[off] <= 57) {
        return false;
    }
    if !(48 <= d[n - 1] && d[n - 1] <= 57) {
        return false;
    }
    let mut seen_dot = false;
    let ghost mut dot_at: int = 0;
    let mut k: usize = off;
    while k < n
        invariant
            off <= k <= n,
            n == d@.len(),
            off <= 1,
            (off == 1) <==> (n > 0 && d@[0] == 45),
            forall|i: int| off <= i < k ==> (is_digit(#[trigger] d@[i]) || d@[i] == 46),
            !seen_dot ==> forall|i: int| off <= i < k ==> d@[i] != 46,
            seen_dot ==> off <= dot_at < k && d@[dot_at] == 46,
            forall|i: int, j: int|
                off <= i < j < k && #[trigger] d@[i] == 46 ==> #[trigger] d@[j] != 46,
        decreases n - k,
    {
        let b = d[k];
        if 48 <= b && b <= 57 {
        } else if b == 46 {
            if seen_dot {
                proof {
                    assert(d@[dot_at] == 46 && d@[k as int] == 46 && dot_at < k);
                    assert(!spec_num_ok(d@));
                }
                return false;
            }
            seen_dot = true;
            proof {
                dot_at = k as int;
            }
        } else {
            return false;
        }
        k = k + 1;
    }
    true
}

/// Checks a string for well-formedness.
fn check_str(s: &[u8]) -> (r: bool)
    ensures
        r == spec_str_ok(s@),
{
    let mut k: usize = 0;
    while k < s.len()
        invariant
            k <= s@.len(),
            forall|i: int| 0 <= i < k ==> str_byte_ok(#[trigger] s@[i]),
        decreases s@.len() - k,
    {
        let b = s[k];
        if !(32 <= b && b <= 126 && b != 34 && b != 92) {
            return false;
        }
        k = k + 1;
    }
    true
}

/// Serializes one value onto the end of `out`. Fails, leaving `out`
/// in an unspecified state, exactly when the value is not well-formed.
#[verifier::loop_isolation(false)]
#[verifier::rlimit(100)]
fn write_value(v: &Json, out: &mut Vec<u8>) -> (r: Result<(), ChannelError>)
    ensures
        r matches Ok(u) ==> spec_wf(*v) && final(out)@ == old(out)@ + spec_ser(*v),
        r matches Err(e) ==> e == ChannelError::Decode && !spec_wf(*v),
    decreases *v,
{
    match v {
        Json::Null => {
            out.push(110);
            out.push(117);
            out.push(108);
            out.push(108);
            proof {
                assert(out@ =~= old(out)@ + spec_ser(*v));
            }
            Ok(())
        },
        Json::Bool(b) => {
            if *b {
                out.push(116);
                out.push(114);
                out.push(117);
                out.push(101);
            } else {
                out.push(102);
                out.push(97);
                out.push(108);
                out.push(115);
                out.push(101);
            }
            proof {
                assert(out@ =~= old(out)@ + spec_ser(*v));
            }
            Ok(())
        },
        Json::Num(d) => {
            if !check_num(d.as_slice()) {
                return Err(ChannelError::Decode);
            }
            let mut k: usize = 0;
            while k < d.len()
                invariant
                    k <= d@.len(),
                    out@ == old(out)@ + d@.take(k as int),
                decreases d@.len() - k,
            {
                out.push(d[k]);
                k = k + 1;
                proof {
                    assert(out@ =~= old(out)@ + d@.take(k as int));
                }
            }
            proof {
                assert(d@.take(d@.len() as int) =~= d@);
            }
            Ok(())
        },
        Json::Str(s) => {
            if !check_str(s.as_slice()) {
                return Err(ChannelError::Decode);
            }
            out.push(34);
            let mut k: usize = 0;
            while k < s.len()
                invariant
                    k <= s@.len(),
                    out@ == old(out)@ + seq![34u8] + s@.take(k as int),
                decreases s@.len() - k,
            {
                out.push(s[k]);
                k = k + 1;
                proof {
                    assert(out@ =~= old(out)@ + seq![34u8] + s@.take(k as int));
                }
            }
            out.push(34);
            proof {
                assert(s@.take(s@.len() as int) =~= s@);
                assert(out@ =~= old(out)@ + spec_ser(*v));
            }
            Ok(())
        },
        Json::Arr(xs) => {
            out.push(91);
            let ghost base = out@;
            let mut k: usize = 0;
            while k < xs.len()
                invariant
                    *v == Json::Arr(*xs),
                    k <= xs@.len(),
                    out@ == base + spec_ser_arr(xs@.take(k as int)),
                    forall|i: int| 0 <= i < k ==> spec_wf(#[trigger] xs@[i]),
                decreases xs@.len() - k,
            {
                if k > 0 {
                    out.push(44);
                }
                proof {
                    assert(decreases_to!(*v => xs@[k as int])) by {
                        assert(decreases_to!(*v => xs));
                        assert(decreases_to!(xs => xs@));
                        assert(decreases_to!(xs@ => xs@[k as int]));
                    }
                }
                match write_value(&xs[k], out) {
                    Ok(u) => {},
                    Err(e) => {
                        proof {
                            assert(spec_wf(*v) ==> spec_wf(xs@[k as int]));
                        }
                        return Err(e);
                    },
                }
                proof {
                    assert(xs@.take(k as int).push(xs@[k as int]) =~= xs@.take(k as int + 1));
                    lemma_ser_arr_push(xs@.take(k as int), xs@[k as int]);
                    if k == 0 {
                        assert(out@ =~= base + spec_ser_arr(xs@.take(k as int + 1)));
                    } else {
                        assert(out@ =~= base + spec_ser_arr(xs@.take(k as int + 1)));
                    }
                }
                k = k + 1;
            }
            out.push(93);
            proof {
                assert(xs@.take(xs@.len() as int) =~= xs@);
                assert(out@ =~= old(out)@ + spec_ser(*v));
            }
            Ok(())
        },
        Json::Obj(fs) => {
            out.push(123);
            let ghost base = out@;
            let mut k: usize = 0;
            while k < fs.len()
                invariant
                    *v == Json::Obj(*fs),
                    k <= fs@.len(),
                    out@ == base + spec_ser_obj(fs@.take(k as int)),
                    forall|i: int|
                        0 <= i < k ==> spec_str_ok((#[trigger] fs@[i]).0@) && spec_wf(fs@[i].1),
                decreases fs@.len() - k,
            {
                if k > 0 {
                    out.push(44);
                }
                let ghost mid = out@;
                if !check_str(fs[k].0.as_slice()) {
                    proof {
                        assert(spec_wf(*v) ==> spec_str_ok(fs@[k as int].0@));
                    }
                    return Err(ChannelError::Decode);
                }
                out.push(34);
                let key = &fs[k].0;
                let mut q: usize = 0;
                while q < key.len()
                    invariant
                        q <= key@.len(),
                        k < fs@.len(),
                        key@ == fs@[k as int].0@,
                        out@ == mid + seq![34u8] + key@.take(q as int),
                    decreases key@.len() - q,
                {
                    out.push(key[q]);
                    q = q + 1;
                    proof {
                        assert(out@ =~= mid + seq![34u8] + key@.take(q as int));
                    }
                }
                out.push(34);
                out.push(58);
                proof {
                    assert(key@.take(key@.len() as int) =~= key@);
                }
                proof {
                    assert(decreases_to!(*v => fs@[k as int].1)) by {
                        assert(decreases_to!(*v => fs));
                        assert(decreases_to!(fs => fs@));
                        assert(decreases_to!(fs@ => fs@[k as int]));
                        assert(decreases_to!(fs@[k as int] => fs@[k as int].1));
                    }
                }
                match write_value(&fs[k].1, out) {
                    Ok(u) => {},
                    Err(e) => {
                        proof {
                            assert(spec_wf(*v) ==> spec_wf(fs@[k as int].1));
                        }
                        return Err(e);
                    },
                }
                proof {
                    assert(out@ =~= mid + spec_ser_field(fs@[k as int]));
                    assert(fs@.take(k as int).push(fs@[k as int]) =~= fs@.take(k as int + 1));
                    lemma_ser_obj_push(fs@.take(k as int), fs@[k as int]);
                    assert(out@ =~= base + spec_ser_obj(fs@.take(k as int + 1)));
                }
                k = k + 1;
            }
            out.push(125);
            proof {
                assert(fs@.take(fs@.len() as int) =~= fs@);
                assert(out@ =~= old(out)@ + spec_ser(*v));
            }
            Ok(())
        },
    }
}

/// Serializes a value to its canonical encoding. Fails exactly when
/// the value is not well-formed.
pub fn to_bytes(v: &Json) -> (r: Result<Vec<u8>, ChannelError>)
    ensures
        r matches Ok(b) ==> spec_wf(*v) && b@ == spec_ser(*v),
        r matches Err(e) ==> e == ChannelError::Decode && !spec_wf(*v),
{
    let mut out: Vec<u8> = Vec::new();
    match write_value(v, &mut out) {
        Ok(u) => Ok(out),
        Err(e) => Err(e),
    }
}

/// Parses the quoted string starting at `i` (which must hold a quote):
/// returns its bytes and the position after the closing quote.
fn parse_string(bytes: &[u8], i: usize) -> (r: Result<(Vec<u8>, usize), ChannelError>)
    requires
        i < bytes@.len(),
        bytes@[i as int] == 34,
    ensures
        r matches Ok(p) ==> i < p.1 <= bytes@.len() && spec_str_ok(p.0@) && seq![34u8] + p.0@
            + seq![34u8] == bytes@.subrange(i as int, p.1 as int),
        r matches Err(e) ==> e == ChannelError::Decode,
{
    let n = bytes.len();
    let mut j = i + 1;
    while j < n
        invariant
            n == bytes@.len(),
            i + 1 <= j <= n,
            forall|t: int| i + 1 <= t < j ==> str_byte_ok(#[trigger] bytes@[t]),
        decreases n - j,
    {
        let b = bytes[j];
        if b == 34 {
            break ;
        }
        if !(32 <= b && b <= 126 && b != 92) {
            return Err(ChannelError::Decode);
        }
        j = j + 1;
    }
    if j >= n {
        return Err(ChannelError::Decode);
    }
    if bytes[j] != 34 {
        return Err(ChannelError::Decode);
    }
    let s = vstd::slice::slice_to_vec(vstd::slice::slice_subrange(bytes, i + 1, j));
    proof {
        assert(seq![34u8] + s@ + seq![34u8] =~= bytes@.subrange(i as int, j as int + 1));
    }
    Ok((s, j + 1))
}

/// Parses the number literal starting at `i` (which must hold a minus
/// sign or a digit): returns its text and the position after it.
fn parse_number(bytes: &[u8], i: usize) -> (r: Result<(Vec<u8>, usize), ChannelError>)
    requires
        i < bytes@.len(),
        bytes@[i as int] == 45 || is_digit(bytes@[i as int]),
    ensures
        r matches Ok(p) ==> i < p.1 <= bytes@.len() && spec_num_ok(p.0@) && p.0@
            == bytes@.subrange(i as int, p.1 as int),
        r matches Err(e) ==> e == ChannelError::Decode,
{
    let n = bytes.len();
    let mut j = i;
    if bytes[j] == 45 {
        j = j + 1;
    }
    if j >= n {
        return Err(ChannelError::Decode);
    }
    let first = bytes[j];
    if !(48 <= first && first <= 57) {
        return Err(ChannelError::Decode);
    }
    let digstart = j;
    j = j + 1;
    while j < n
        invariant
            n == bytes@.len(),
            digstart + 1 <= j <= n,
            forall|t: int| digstart <= t < j ==> is_digit(#[trigger] bytes@[t]),
        decreases n - j,
    {
        let b = bytes[j];
        if !(48 <= b && b <= 57) {
            break ;
        }
        j = j + 1;
    }
    let intend = j;
    if j < n && bytes[j] == 46 {
        let dot = j;
        j = j + 1;
        if j >= n {
            return Err(ChannelError::Decode);
        }
        let fb = bytes[j];
        if !(48 <= fb && fb <= 57) {
            return Err(ChannelError::Decode);
        }
        j = j + 1;
        while j < n
            invariant
                n == bytes@.len(),
                dot + 2 <= j <= n,
                forall|t: int| dot + 1 <= t < j ==> is_digit(#[trigger] bytes@[t]),
            decreases n - j,
        {
            let b = bytes[j];
            if !(48 <= b && b <= 57) {
                break ;
            }
            j = j + 1;
        }
        let d = vstd::slice::slice_to_vec(vstd::slice::slice_subrange(bytes, i, j));
        proof {
            assert(d@ == bytes@.subrange(i as int, j as int));
            assert(spec_num_ok(d@)) by {
                let s = d@;
                let off: int = if s.len() > 0 && s[0] == 45 {
                    1
                } else {
                    0
                };
                assert(forall|t: int|
                    0 <= t < s.len() ==> s[t] == bytes@[i + t]);
                assert(i + off == digstart);
                assert(is_digit(s[off]));
                assert(is_digit(s[s.len() - 1]));
                assert forall|t: int| off <= t < s.len() implies (is_digit(#[trigger] s[t]) || s[t]
                    == 46) by {
                    let u = i + t;
                    if u < intend {
                    } else if u == dot {
                    } else {
                    }
                }
                assert forall|t1: int, t2: int|
                    off <= t1 < t2 < s.len() && #[trigger] s[t1] == 46 implies #[trigger] s[t2]
                    != 46 by {
                    assert(i + t1 == dot);
                }
            }
        }
        return Ok((d, j));
    }
    let d = vstd::slice::slice_to_vec(vstd::slice::slice_subrange(bytes, i, intend));
    proof {
        assert(d@ == bytes@.subrange(i as int, intend as int));
        assert(spec_num_ok(d@)) by {
            let s = d@;
            let off: int = if s.len() > 0 && s[0] == 45 {
                1
            } else {
                0
            };
            assert(forall|t: int| 0 <= t < s.len() ==> s[t] == bytes@[i + t]);
            assert(i + off == digstart);
            assert(is_digit(s[off]));
            assert(is_digit(s[s.len() - 1]));
        }
    }
    Ok((d, intend))
}

/// Parses one value starting at `i`: returns it and the position after
/// its encoding, which is exactly the bytes consumed.
#[verifier::loop_isolation(false)]
#[verifier::rlimit(100)]
fn parse_value(bytes: &[u8], i: usize) -> (r: Result<(Json, usize), ChannelError>)
    ensures
        r matches Ok(p) ==> i < p.1 <= bytes@.len() && spec_wf(p.0) && spec_ser(p.0)
            == bytes@.subrange(i as int, p.1 as int),
        r matches Err(e) ==> e == ChannelError::Decode,
    decreases bytes@.len() - i,
{
    if i >= bytes.len() {
        return Err(ChannelError::Decode);
    }
    let b = bytes[i];
    if b == 110 {
        if bytes.len() - i < 4 || bytes[i + 1] != 117 || bytes[i + 2] != 108 || bytes[i + 3]
            != 108 {
            return Err(ChannelError::Decode);
        }
        proof {
            assert(spec_ser(Json::Null) =~= bytes@.subrange(i as int, i as int + 4));
        }
        Ok((Json::Null, i + 4))
    } else if b == 116 {
        if bytes.len() - i < 4 || bytes[i + 1] != 114 || bytes[i + 2] != 117 || bytes[i + 3]
            != 101 {
            return Err(ChannelError::Decode);
        }
        proof {
            assert(spec_ser(Json::Bool(true)) =~= bytes@.subrange(i as int, i as int + 4));
        }
        Ok((Json::Bool(true), i + 4))
    } else if b == 102 {
        if bytes.len() - i < 5 || bytes[i + 1] != 97 || bytes[i + 2] != 108 || bytes[i + 3] != 115
            || bytes[i + 4] != 101 {
            return Err(ChannelError::Decode);
        }
        proof {
            assert(spec_ser(Json::Bool(false)) =~= bytes@.subrange(i as int, i as int + 5));
        }
        Ok((Json::Bool(false), i + 5))
    } else if b == 34 {
        match parse_string(bytes, i) {
            Ok((s, j)) => Ok((Json::Str(s), j)),
            Err(e) => Err(e),
        }
    } else if b == 45 || (48 <= b && b <= 57) {
        match parse_number(bytes, i) {
            Ok((d, j)) => Ok((Json::Num(d), j)),
            Err(e) => Err(e),
        }
    } else if b == 91 {
        if i + 1 < bytes.len() && bytes[i + 1] == 93 {
            let empty: Vec<Json> = Vec::new();
            proof {
                assert(spec_ser(Json::Arr(empty)) =~= bytes@.subrange(i as int, i as int + 2));
            }
            return Ok((Json::Arr(empty), i + 2));
        }
        let mut elems: Vec<Json> = Vec::new();
        let mut j = i + 1;
        loop
            invariant
                i + 1 <= j <= bytes@.len(),
                i < bytes@.len(),
                bytes@[i as int] == 91,
                forall|t: int| 0 <= t < elems@.len() ==> spec_wf(#[trigger] elems@[t]),
                elems@.len() == 0 ==> j == i + 1,
                elems@.len() > 0 ==> spec_ser_arr(elems@) + seq![44u8] == bytes@.subrange(
                    i as int + 1,
                    j as int,
                ),
            decreases bytes@.len() - j,
        {
            let (v, j2) = match parse_value(bytes, j) {
                Ok(p) => p,
                Err(e) => return Err(e),
            };
            proof {
                lemma_ser_arr_push(elems@, v);
                assert(spec_ser_arr(elems@.push(v)) =~= bytes@.subrange(i as int + 1, j2 as int));
            }
            elems.push(v);
            if j2 >= bytes.len() {
                return Err(ChannelError::Decode);
            }
            let c = bytes[j2];
            if c == 93 {
                proof {
                    assert(bytes@[i as int] == 91 && bytes@[j2 as int] == 93);
                    assert(spec_ser_arr(elems@) == bytes@.subrange(i as int + 1, j2 as int));
                    assert(spec_ser(Json::Arr(elems)) == seq![91u8] + spec_ser_arr(elems@)
                        + seq![93u8]);
                    assert(spec_ser(Json::Arr(elems)) =~= bytes@.subrange(
                        i as int,
                        j2 as int + 1,
                    ));
                }
                return Ok((Json::Arr(elems), j2 + 1));
            }
            if c != 44 {
                return Err(ChannelError::Decode);
            }
            proof {
                assert(spec_ser_arr(elems@) + seq![44u8] =~= bytes@.subrange(
                    i as int + 1,
                    j2 as int + 1,
                ));
            }
            j = j2 + 1;
        }
    } else if b == 123 {
        if i + 1 < bytes.len() && bytes[i + 1] == 125 {
            let empty: Vec<(Vec<u8>, Json)> = Vec::new();
            proof {
                assert(spec_ser(Json::Obj(empty)) =~= bytes@.subrange(i as int, i as int + 2));
            }
            return Ok((Json::Obj(empty), i + 2));
        }
        let mut fields: Vec<(Vec<u8>, Json)> = Vec::new();
        let mut j = i + 1;
        loop
            invariant
                i + 1 <= j <= bytes@.len(),
                i < bytes@.len(),
                bytes@[i as int] == 123,
                forall|t: int|
                    0 <= t < fields@.len() ==> spec_str_ok((#[trigger] fields@[t]).0@) && spec_wf(
                        fields@[t].1,
                    ),
                fields@.len() == 0 ==> j == i + 1,
                fields@.len() > 0 ==> spec_ser_obj(fields@) + seq![44u8] == bytes@.subrange(
                    i as int + 1,
                    j as int,
                ),
            decreases bytes@.len() - j,
        {
            if j >= bytes.len() || bytes[j] != 34 {
                return Err(ChannelError::Decode);
            }
            let (key, jk) = match parse_string(bytes, j) {
                Ok(p) => p,
                Err(e) => return Err(e),
            };
            if jk >= bytes.len() || bytes[jk] != 58 {
                return Err(ChannelError::Decode);
            }
            let (v, j2) = match parse_value(bytes, jk + 1) {
                Ok(p) => p,
                Err(e) => return Err(e),
            };
            proof {
                lemma_ser_obj_push(fields@, (key, v));
                assert(bytes@[jk as int] == 58);
                assert(seq![34u8] + key@ + seq![34u8] == bytes@.subrange(j as int, jk as int));
                assert(spec_ser(v) == bytes@.subrange(jk as int + 1, j2 as int));
                assert((seq![34u8] + key@ + seq![34u8]).len() == key@.len() + 2);
                assert(bytes@.subrange(j as int, jk as int).len() == jk - j);
                assert(key@.len() + 2 == jk - j);
                assert forall|t: int| 0 <= t < key@.len() implies key@[t] == bytes@[j + 1 + t] by {
                    assert((seq![34u8] + key@ + seq![34u8])[t + 1] == key@[t]);
                    assert(bytes@.subrange(j as int, jk as int)[t + 1] == bytes@[j + 1 + t]);
                }
                assert((seq![34u8] + key@ + seq![34u8])[key@.len() as int + 1] == 34);
                assert(bytes@[jk as int - 1] == 34);
                assert(bytes@[j as int] == 34);
                assert(spec_ser_field((key, v)) =~= bytes@.subrange(j as int, j2 as int));
                assert(spec_ser_obj(fields@.push((key, v))) =~= bytes@.subrange(
                    i as int + 1,
                    j2 as int,
                ));
            }
            fields.push((key, v));
            if j2 >= bytes.len() {
                return Err(ChannelError::Decode);
            }
            let c = bytes[j2];
            if c == 125 {
                proof {
                    assert(bytes@[i as int] == 123 && bytes@[j2 as int] == 125);
                    assert(spec_ser_obj(fields@) == bytes@.subrange(i as int + 1, j2 as int));
                    assert(spec_ser(Json::Obj(fields)) == seq![123u8] + spec_ser_obj(fields@)
                        + seq![125u8]);
                    assert(spec_ser(Json::Obj(fields)) =~= bytes@.subrange(
                        i as int,
                        j2 as int + 1,
                    ));
                }
                return Ok((Json::Obj(fields), j2 + 1));
            }
            if c != 44 {
                return Err(ChannelError::Decode);
            }
            proof {
                assert(spec_ser_obj(fields@) + seq![44u8] =~= bytes@.subrange(
                    i as int + 1,
                    j2 as int + 1,
                ));
            }
            j = j2 + 1;
        }
    } else {
        Err(ChannelError::Decode)
    }
}

/// Parses a complete message as one structured value. The parser is
/// canonical: a returned value is well-formed and re-serializes to
/// exactly the bytes received; anything else is a decode error.
pub fn from_bytes(bytes: &[u8]) -> (r: Result<Json, ChannelError>)
    ensures
        r matches Ok(v) ==> spec_wf(v) && spec_ser(v) == bytes@,
        r matches Err(e) ==> e == ChannelError::Decode,
{
    match parse_value(bytes, 0) {
        Ok((v, j)) => {
            if j == bytes.len() {
                proof {
                    assert(bytes@.subrange(0, bytes@.len() as int) =~= bytes@);
                }
                Ok(v)
            } else {
                Err(ChannelError::Decode)
            }
        },
        Err(e) => Err(e),
    }
}

} // verus!
