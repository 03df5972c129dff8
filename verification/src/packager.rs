//! The frame of a Nexa bundle (`.nxb`): a 3-byte magic `NXB`, a format
//! version byte, then the serialized program.
use vstd::prelude::*;

verus! {

/// The version of the bundle format that this compiler writes and reads.
pub const NXB_FORMAT_VERSION: u8 = 1;

/// The magic that opens every bundle: `NXB`.
pub open spec fn nxb_magic() -> Seq<u8> {
    seq![78u8, 88u8, 66u8]
}

/// Why bytes are not a bundle this compiler can read.
#[derive(Debug, Clone, Copy, PartialEq, Eq, Structural)]
pub enum PackageError {
    /// The bytes do not open with `NXB` and a version byte.
    BadMagic,
    /// The version byte is not the one this compiler supports.
    FormatVersion { found: u8, supported: u8 },
}

/// A bundle: the magic, the version byte, then `payload`.
pub fn frame_nxb(payload: &[u8]) -> (out: Vec<u8>)
    ensures
        out@ == nxb_magic() + seq![NXB_FORMAT_VERSION] + payload@,
{
    let mut out: Vec<u8> = Vec::new();
    out.push(78u8);
    out.push(88u8);
    out.push(66u8);
    out.push(NXB_FORMAT_VERSION);
    let mut i: usize = 0;
    while i < payload.len()
        invariant
            i <= payload@.len(),
            out@ == nxb_magic() + seq![NXB_FORMAT_VERSION] + payload@.take(i as int),
        decreases payload.len() - i,
    {
        out.push(payload[i]);
        assert(payload@.take(i + 1) =~= payload@.take(i as int).push(payload@[i as int]));
        assert(out@ =~= nxb_magic() + seq![NXB_FORMAT_VERSION] + payload@.take(i + 1));
        i = i + 1;
    }
    assert(payload@.take(payload@.len() as int) =~= payload@);
    out
}

/// The payload of a bundle: the bytes after the header, when the bytes open
/// with the magic and the supported version. Fewer than four bytes, or
/// another magic, is `BadMagic`; another version byte is `FormatVersion`.
pub fn nxb_payload(bytes: &[u8]) -> (r: Result<Vec<u8>, PackageError>)
    ensures
        bytes@.len() < 4 || bytes@.take(3) != nxb_magic() ==> r == Err::<Vec<u8>, PackageError>(PackageError::BadMagic),
        bytes@.len() >= 4 && bytes@.take(3) == nxb_magic() && bytes@[3] != NXB_FORMAT_VERSION ==> r == Err::<
            Vec<u8>,
            PackageError,
        >(PackageError::FormatVersion { found: bytes@[3], supported: NXB_FORMAT_VERSION }),
        bytes@.len() >= 4 && bytes@.take(3) == nxb_magic() && bytes@[3] == NXB_FORMAT_VERSION ==> (r matches Ok(p)
            && p@ == bytes@.skip(4)),
{
    if bytes.len() < 4 || bytes[0] != 78u8 || bytes[1] != 88u8 || bytes[2] != 66u8 {
        proof {
            if bytes@.len() >= 4 {
                assert(bytes@.take(3)[0] == bytes@[0]);
                assert(bytes@.take(3)[1] == bytes@[1]);
                assert(bytes@.take(3)[2] == bytes@[2]);
                assert(bytes@.take(3) != nxb_magic());
            }
        }
        return Err(PackageError::BadMagic);
    }
    assert(bytes@.take(3) =~= nxb_magic());
    if bytes[3] != NXB_FORMAT_VERSION {
        return Err(PackageError::FormatVersion { found: bytes[3], supported: NXB_FORMAT_VERSION });
    }
    let mut out: Vec<u8> = Vec::new();
    let mut i: usize = 4;
    while i < bytes.len()
        invariant
            4 <= i <= bytes@.len(),
            out@ == bytes@.subrange(4, i as int),
        decreases bytes.len() - i,
    {
        out.push(bytes[i]);
        assert(out@ =~= bytes@.subrange(4, i + 1));
        i = i + 1;
    }
    assert(out@ =~= bytes@.skip(4));
    Ok(out)
}

/// Reading back a framed payload gives the payload.
pub proof fn lemma_frame_round_trip(payload: Seq<u8>)
    ensures
        ({
            let framed = nxb_magic() + seq![NXB_FORMAT_VERSION] + payload;
            &&& framed.len() >= 4
            &&& framed.take(3) == nxb_magic()
            &&& framed[3] == NXB_FORMAT_VERSION
            &&& framed.skip(4) == payload
        }),
{
    let framed = nxb_magic() + seq![NXB_FORMAT_VERSION] + payload;
    assert(framed.take(3) =~= nxb_magic());
    assert(framed.skip(4) =~= payload);
}

} // verus!
