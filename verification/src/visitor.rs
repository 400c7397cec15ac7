//! The serialization protocol: named regions and named fields written in a
//! fixed order to a little-endian byte stream, and the strict reader for it.
//!
//! Field names are part of the format contract.  The reader accepts exactly
//! what the writer produces — an unknown discriminant, a wrong name or a
//! malformed byte is a hard error, never a guess — with one exception kept
//! for older saves: a descriptor set whose handle maps are absent gets
//! sequential fallback handles synthesized from array positions.

use vstd::prelude::*;
use vstd::bytes::{
    lemma_auto_spec_u128_to_from_le_bytes, lemma_auto_spec_u32_to_from_le_bytes,
    lemma_auto_spec_u64_to_from_le_bytes, spec_u128_to_le_bytes, spec_u32_to_le_bytes,
    spec_u64_to_le_bytes, u128_from_le_bytes, u128_to_le_bytes, u32_from_le_bytes,
    u32_to_le_bytes, u64_from_le_bytes, u64_to_le_bytes,
};
use vstd::slice::slice_subrange;
use vstd::string::StringSliceAdditionalSpecFns;

verus! {

/// A hard deserialization failure: the bytes do not hold what the format
/// promises at this position.
#[derive(Clone, Copy, PartialEq, Eq, Structural, Debug)]
pub struct VisitError;

/// The bytes of a boolean.
pub open spec fn enc_bool(b: bool) -> Seq<u8> {
    seq![
        if b {
            1u8
        } else {
            0u8
        },
    ]
}

/// The bytes of a length-prefixed name.
pub open spec fn enc_str(s: Seq<u8>) -> Seq<u8> {
    spec_u64_to_le_bytes(s.len() as u64) + s
}

/// The stream holds exactly these bytes at this position.
pub open spec fn starts_with(data: Seq<u8>, pos: int, e: Seq<u8>) -> bool {
    &&& 0 <= pos
    &&& pos + e.len() <= data.len()
    &&& data.subrange(pos, pos + e.len()) == e
}

/// A concatenation at a position splits into its two parts.
pub proof fn lemma_split(data: Seq<u8>, pos: int, a: Seq<u8>, b: Seq<u8>)
    requires
        starts_with(data, pos, a + b),
    ensures
        starts_with(data, pos, a),
        starts_with(data, pos + a.len(), b),
{
    let whole = data.subrange(pos, pos + a.len() + b.len());
    assert(data.subrange(pos, pos + a.len()) =~= whole.subrange(0, a.len() as int));
    assert(whole.subrange(0, a.len() as int) =~= a);
    assert(data.subrange(pos + a.len(), pos + a.len() + b.len()) =~= whole.subrange(
        a.len() as int,
        whole.len() as int,
    ));
    assert(whole.subrange(a.len() as int, whole.len() as int) =~= b);
}

/// Two adjacent consumed pieces join into one.
pub proof fn lemma_join(data: Seq<u8>, pos: int, a: Seq<u8>, b: Seq<u8>)
    requires
        starts_with(data, pos, a),
        starts_with(data, pos + a.len(), b),
    ensures
        starts_with(data, pos, a + b),
{
    assert(data.subrange(pos, pos + a.len() + b.len()) =~= a + b);
}

/// Appends one byte.
pub fn put_u8(out: &mut Vec<u8>, v: u8)
    ensures
        final(out)@ == old(out)@ + seq![v],
{
    out.push(v);
    proof {
        assert(out@ =~= old(out)@ + seq![v]);
    }
}

/// Appends a boolean as one byte.
pub fn put_bool(out: &mut Vec<u8>, v: bool)
    ensures
        final(out)@ == old(out)@ + enc_bool(v),
{
    if v {
        put_u8(out, 1);
    } else {
        put_u8(out, 0);
    }
}

/// Appends a little-endian 32-bit value.
pub fn put_u32(out: &mut Vec<u8>, v: u32)
    ensures
        final(out)@ == old(out)@ + spec_u32_to_le_bytes(v),
{
    let mut bytes = u32_to_le_bytes(v);
    out.append(&mut bytes);
}

/// Appends a little-endian 64-bit value.
pub fn put_u64(out: &mut Vec<u8>, v: u64)
    ensures
        final(out)@ == old(out)@ + spec_u64_to_le_bytes(v),
{
    let mut bytes = u64_to_le_bytes(v);
    out.append(&mut bytes);
}

/// Appends a little-endian 128-bit value.
pub fn put_u128(out: &mut Vec<u8>, v: u128)
    ensures
        final(out)@ == old(out)@ + spec_u128_to_le_bytes(v),
{
    let mut bytes = u128_to_le_bytes(v);
    out.append(&mut bytes);
}

/// Appends a length-prefixed field or region name.
pub fn put_name(out: &mut Vec<u8>, name: &str)
    ensures
        final(out)@ == old(out)@ + enc_str(name.spec_bytes()),
{
    let bytes = name.as_bytes();
    put_u64(out, bytes.len() as u64);
    let n = bytes.len();
    let mut i: usize = 0;
    while i < n
        invariant
            i <= n,
            n == name.spec_bytes().len(),
            bytes@ == name.spec_bytes(),
            out@ == old(out)@ + spec_u64_to_le_bytes(n as u64) + name.spec_bytes().take(i as int),
        decreases n - i,
    {
        let b = *vstd::slice::slice_index_get(bytes, i);
        out.push(b);
        proof {
            assert(out@ =~= old(out)@ + spec_u64_to_le_bytes(n as u64) + name.spec_bytes().take(
                i + 1,
            ));
        }
        i += 1;
    }
    proof {
        assert(name.spec_bytes().take(n as int) =~= name.spec_bytes());
        assert(out@ =~= old(out)@ + enc_str(name.spec_bytes()));
    }
}

/// Reads one byte.
pub fn take_u8(data: &Vec<u8>, pos: &mut usize) -> (r: Result<u8, VisitError>)
    ensures
        (r is Ok <==> *old(pos) + 1 <= data@.len()),
        r matches Ok(v) ==> *final(pos) == *old(pos) + 1 && starts_with(
            data@,
            *old(pos) as int,
            seq![v],
        ),
        r is Err ==> *final(pos) == *old(pos),
{
    if *pos < data.len() {
        let v = data[*pos];
        *pos = *pos + 1;
        proof {
            assert(data@.subrange(*old(pos) as int, *old(pos) + 1) =~= seq![v]);
        }
        Ok(v)
    } else {
        Err(VisitError)
    }
}

/// Reads a boolean; any byte but zero or one is a hard error.
pub fn take_bool(data: &Vec<u8>, pos: &mut usize) -> (r: Result<bool, VisitError>)
    ensures
        r matches Ok(v) ==> *final(pos) == *old(pos) + 1 && starts_with(
            data@,
            *old(pos) as int,
            enc_bool(v),
        ),
        r is Err ==> *final(pos) == *old(pos),
        forall|v: bool|
            starts_with(data@, *old(pos) as int, enc_bool(v)) ==> r == Ok::<bool, VisitError>(v),
{
    let start = *pos;
    match take_u8(data, pos) {
        Ok(b) => {
            proof {
                assert(data@.subrange(start as int, start as int + 1)[0] == b);
                assert(data@[start as int] == b);
                assert forall|v: bool|
                    starts_with(data@, start as int, enc_bool(v)) implies data@[start as int]
                    == enc_bool(v)[0] by {
                    assert(data@.subrange(start as int, start as int + 1)[0] == enc_bool(v)[0]);
                }
            }
            if b == 0 {
                Ok(false)
            } else if b == 1 {
                Ok(true)
            } else {
                *pos = start;
                Err(VisitError)
            }
        },
        Err(e) => Err(e),
    }
}

/// Reads a little-endian 32-bit value.
pub fn take_u32(data: &Vec<u8>, pos: &mut usize) -> (r: Result<u32, VisitError>)
    ensures
        (r is Ok <==> *old(pos) + 4 <= data@.len()),
        r matches Ok(v) ==> *final(pos) == *old(pos) + 4 && starts_with(
            data@,
            *old(pos) as int,
            spec_u32_to_le_bytes(v),
        ),
        r is Err ==> *final(pos) == *old(pos),
        forall|v: u32|
            starts_with(data@, *old(pos) as int, spec_u32_to_le_bytes(v)) ==> r == Ok::<
                u32,
                VisitError,
            >(v),
{
    proof {
        lemma_auto_spec_u32_to_from_le_bytes();
    }
    if data.len() >= 4 && *pos <= data.len() - 4 {
        let s = slice_subrange(data.as_slice(), *pos, *pos + 4);
        let v = u32_from_le_bytes(s);
        *pos = *pos + 4;
        Ok(v)
    } else {
        Err(VisitError)
    }
}

/// Reads a little-endian 64-bit value.
pub fn take_u64(data: &Vec<u8>, pos: &mut usize) -> (r: Result<u64, VisitError>)
    ensures
        (r is Ok <==> *old(pos) + 8 <= data@.len()),
        r matches Ok(v) ==> *final(pos) == *old(pos) + 8 && starts_with(
            data@,
            *old(pos) as int,
            spec_u64_to_le_bytes(v),
        ),
        r is Err ==> *final(pos) == *old(pos),
        forall|v: u64|
            starts_with(data@, *old(pos) as int, spec_u64_to_le_bytes(v)) ==> r == Ok::<
                u64,
                VisitError,
            >(v),
{
    proof {
        lemma_auto_spec_u64_to_from_le_bytes();
    }
    if data.len() >= 8 && *pos <= data.len() - 8 {
        let s = slice_subrange(data.as_slice(), *pos, *pos + 8);
        let v = u64_from_le_bytes(s);
        *pos = *pos + 8;
        Ok(v)
    } else {
        Err(VisitError)
    }
}

/// Reads a little-endian 128-bit value.
pub fn take_u128(data: &Vec<u8>, pos: &mut usize) -> (r: Result<u128, VisitError>)
    ensures
        (r is Ok <==> *old(pos) + 16 <= data@.len()),
        r matches Ok(v) ==> *final(pos) == *old(pos) + 16 && starts_with(
            data@,
            *old(pos) as int,
            spec_u128_to_le_bytes(v),
        ),
        r is Err ==> *final(pos) == *old(pos),
        forall|v: u128|
            starts_with(data@, *old(pos) as int, spec_u128_to_le_bytes(v)) ==> r == Ok::<
                u128,
                VisitError,
            >(v),
{
    proof {
        lemma_auto_spec_u128_to_from_le_bytes();
    }
    if data.len() >= 16 && *pos <= data.len() - 16 {
        let s = slice_subrange(data.as_slice(), *pos, *pos + 16);
        let v = u128_from_le_bytes(s);
        *pos = *pos + 16;
        Ok(v)
    } else {
        Err(VisitError)
    }
}

/// Reads a length-prefixed name and checks it is the expected one; a
/// mismatch is a hard error.
pub fn take_name(data: &Vec<u8>, pos: &mut usize, name: &str) -> (r: Result<(), VisitError>)
    ensures
        r is Ok ==> *final(pos) == *old(pos) + enc_str(name.spec_bytes()).len() && starts_with(
            data@,
            *old(pos) as int,
            enc_str(name.spec_bytes()),
        ),
        r is Err ==> *final(pos) == *old(pos),
        starts_with(data@, *old(pos) as int, enc_str(name.spec_bytes())) ==> r == Ok::<
            (),
            VisitError,
        >(()),
{
    proof {
        lemma_auto_spec_u64_to_from_le_bytes();
    }
    let ghost e = enc_str(name.spec_bytes());
    let bytes = name.as_bytes();
    let n = bytes.len();
    let start = *pos;
    let len = match take_u64(data, pos) {
        Ok(v) => v,
        Err(err) => {
            proof {
                if starts_with(data@, start as int, e) {
                    lemma_split(data@, start as int, spec_u64_to_le_bytes(n as u64), name.spec_bytes());
                }
            }
            return Err(err);
        },
    };
    if len != n as u64 {
        *pos = start;
        proof {
            if starts_with(data@, start as int, e) {
                lemma_split(data@, start as int, spec_u64_to_le_bytes(n as u64), name.spec_bytes());
            }
        }
        return Err(VisitError);
    }
    let mut i: usize = 0;
    while i < n
        invariant
            i <= n,
            n == name.spec_bytes().len(),
            bytes@ == name.spec_bytes(),
            e == enc_str(name.spec_bytes()),
            start == *old(pos),
            *pos == start + 8 + i,
            start + 8 <= data@.len(),
            data@.subrange(start as int, start as int + 8) == spec_u64_to_le_bytes(n as u64),
            start + 8 + i <= data@.len(),
            data@.subrange(start as int + 8, start as int + 8 + i) == name.spec_bytes().take(
                i as int,
            ),
        decreases n - i,
    {
        let b = match take_u8(data, pos) {
            Ok(b) => b,
            Err(err) => {
                *pos = start;
                proof {
                    if starts_with(data@, start as int, e) {
                        lemma_split(
                            data@,
                            start as int,
                            spec_u64_to_le_bytes(n as u64),
                            name.spec_bytes(),
                        );
                        assert(data@.subrange(
                            start as int + 8,
                            start as int + 8 + n,
                        ) == name.spec_bytes());
                        assert(start + 8 + n <= data@.len());
                        assert(start + 8 + i + 1 <= data@.len());
                    }
                }
                return Err(err);
            },
        };
        let expected = *vstd::slice::slice_index_get(bytes, i);
        if b != expected {
            *pos = start;
            proof {
                if starts_with(data@, start as int, e) {
                    lemma_split(
                        data@,
                        start as int,
                        spec_u64_to_le_bytes(n as u64),
                        name.spec_bytes(),
                    );
                    let tail = data@.subrange(start as int + 8, start as int + 8 + n);
                    assert(tail == name.spec_bytes());
                    assert(data@[start as int + 8 + i] == tail[i as int]);
                    assert(data@.subrange(start as int + 8 + i, start as int + 8 + i + 1)[0] == b);
                    assert(data@[start as int + 8 + i] == b);
                    assert(b == name.spec_bytes()[i as int]);
                }
            }
            return Err(VisitError);
        }
        proof {
            assert(data@.subrange(start as int + 8 + i, start as int + 8 + i + 1)[0] == b);
            assert(data@[start as int + 8 + i] == b);
            assert forall|m: int| 0 <= m < i implies data@[start as int + 8 + m]
                == name.spec_bytes()[m] by {
                assert(data@.subrange(start as int + 8, start as int + 8 + i)[m]
                    == name.spec_bytes().take(i as int)[m]);
            }
            assert(data@.subrange(start as int + 8, start as int + 8 + i + 1)
                =~= name.spec_bytes().take(i + 1));
        }
        i += 1;
    }
    proof {
        assert(name.spec_bytes().take(n as int) =~= name.spec_bytes());
        assert(data@.subrange(start as int, start as int + 8 + n) =~= spec_u64_to_le_bytes(
            n as u64,
        ) + name.spec_bytes());
    }
    Ok(())
}

} // verus!
