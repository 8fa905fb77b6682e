//! Bounds-checked random access over a read-only disk image held as an
//! immutable byte sequence.

use vstd::prelude::*;
use vstd::slice::{slice_index_get, slice_subrange};
use vstd::string::StringSliceAdditionalSpecFns;
use crate::ScanError;

verus! {

/// Whether byte `b` equals the lower-case ASCII byte `l` up to ASCII case.
pub open spec fn ascii_eq_ci(b: u8, l: u8) -> bool {
    b == l || (0x41 <= b <= 0x5a && b + 0x20 == l)
}

/// Whether `bytes` ends with `suffix`, ignoring ASCII case; the suffix is
/// given in lower case.
pub open spec fn has_suffix_ci(bytes: Seq<u8>, suffix: Seq<u8>) -> bool {
    &&& bytes.len() >= suffix.len()
    &&& forall|i: int|
        0 <= i < suffix.len() ==> ascii_eq_ci(
            bytes[bytes.len() - suffix.len() + i],
            suffix[i],
        )
}

/// The UTF-8 encoding of a path.
pub open spec fn spec_path_bytes(path: Seq<char>) -> Seq<u8> {
    vstd::utf8::encode_utf8(path)
}

/// The UTF-8 bytes of the forensic-container suffix ".e01".
pub open spec fn e01_suffix() -> Seq<u8> {
    seq![0x2eu8, 0x65u8, 0x30u8, 0x31u8]
}

/// The UTF-8 bytes of the raw-image suffix ".dd".
pub open spec fn dd_suffix() -> Seq<u8> {
    seq![0x2eu8, 0x64u8, 0x64u8]
}

/// A read-only disk image: an immutable byte sequence of known total
/// length, addressed by absolute byte offset, together with the path it was
/// loaded from.
pub struct DiskImage {
    pub data: Vec<u8>,
    pub path: String,
}

impl View for DiskImage {
    type V = Seq<u8>;

    open spec fn view(&self) -> Seq<u8> {
        self.data@
    }
}

impl DiskImage {
    /// Wraps already-loaded image bytes. Opening and mapping the image file
    /// is the caller's concern; the image is never mutated after load.
    pub fn new(data: Vec<u8>, path: String) -> (r: DiskImage)
        ensures
            r@ == data@,
            r.path@ == path@,
    {
        DiskImage { data, path }
    }

    /// Bounds-checked random-access read. Fails with a bounds error exactly
    /// when `offset + length` runs past the image's end; otherwise returns
    /// the requested byte range as a read-only view.
    pub fn get_slice(&self, offset: usize, length: usize) -> (r: Result<&[u8], ScanError>)
        ensures
            (offset + length <= self@.len()) <==> r is Ok,
            r matches Ok(s) ==> s@ == self@.subrange(offset as int, offset + length),
            r matches Err(e) ==> e == ScanError::BoundsError,
    {
        if offset <= self.data.len() && length <= self.data.len() - offset {
            Ok(slice_subrange(self.data.as_slice(), offset, offset + length))
        } else {
            Err(ScanError::BoundsError)
        }
    }

    /// Total byte length of the image.
    pub fn size(&self) -> (n: usize)
        ensures
            n == self@.len(),
    {
        self.data.len()
    }

    /// Advisory format hint: whether the path's UTF-8 encoding ends with
    /// ".e01", ignoring ASCII case. A naming convention only, never a gate
    /// on scanning.
    pub fn is_e01_format(&self) -> (r: bool)
        ensures
            r == has_suffix_ci(spec_path_bytes(self.path@), e01_suffix()),
    {
        let b: &[u8] = self.path.as_str().as_bytes();
        let n = b.len();
        if n < 4 {
            return false;
        }
        let c0 = *slice_index_get(b, n - 4);
        let c1 = *slice_index_get(b, n - 3);
        let c2 = *slice_index_get(b, n - 2);
        let c3 = *slice_index_get(b, n - 1);
        let r = c0 == 0x2e && (c1 == 0x65 || c1 == 0x45) && c2 == 0x30 && c3 == 0x31;
        proof {
            let bs = spec_path_bytes(self.path@);
            if r {
                assert(forall|i: int|
                    0 <= i < 4 ==> ascii_eq_ci(bs[bs.len() - 4 + i], e01_suffix()[i])) by {
                    assert(ascii_eq_ci(bs[bs.len() - 4], e01_suffix()[0]));
                    assert(ascii_eq_ci(bs[bs.len() - 3], e01_suffix()[1]));
                    assert(ascii_eq_ci(bs[bs.len() - 2], e01_suffix()[2]));
                    assert(ascii_eq_ci(bs[bs.len() - 1], e01_suffix()[3]));
                }
            } else {
                assert(!(ascii_eq_ci(bs[bs.len() - 4], e01_suffix()[0]) && ascii_eq_ci(
                    bs[bs.len() - 3],
                    e01_suffix()[1],
                ) && ascii_eq_ci(bs[bs.len() - 2], e01_suffix()[2]) && ascii_eq_ci(
                    bs[bs.len() - 1],
                    e01_suffix()[3],
                )));
            }
        }
        r
    }

    /// Advisory format hint: whether the path's UTF-8 encoding ends with
    /// ".dd", ignoring ASCII case.
    pub fn is_dd_format(&self) -> (r: bool)
        ensures
            r == has_suffix_ci(spec_path_bytes(self.path@), dd_suffix()),
    {
        let b: &[u8] = self.path.as_str().as_bytes();
        let n = b.len();
        if n < 3 {
            return false;
        }
        let c0 = *slice_index_get(b, n - 3);
        let c1 = *slice_index_get(b, n - 2);
        let c2 = *slice_index_get(b, n - 1);
        let r = c0 == 0x2e && (c1 == 0x64 || c1 == 0x44) && (c2 == 0x64 || c2 == 0x44);
        proof {
            let bs = spec_path_bytes(self.path@);
            if r {
                assert(forall|i: int|
                    0 <= i < 3 ==> ascii_eq_ci(bs[bs.len() - 3 + i], dd_suffix()[i])) by {
                    assert(ascii_eq_ci(bs[bs.len() - 3], dd_suffix()[0]));
                    assert(ascii_eq_ci(bs[bs.len() - 2], dd_suffix()[1]));
                    assert(ascii_eq_ci(bs[bs.len() - 1], dd_suffix()[2]));
                }
            } else {
                assert(!(ascii_eq_ci(bs[bs.len() - 3], dd_suffix()[0]) && ascii_eq_ci(
                    bs[bs.len() - 2],
                    dd_suffix()[1],
                ) && ascii_eq_ci(bs[bs.len() - 1], dd_suffix()[2])));
            }
        }
        r
    }
}

} // verus!
