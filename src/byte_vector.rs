//! An immutable, persistent byte sequence with constant-time concatenation and slicing.
use std::rc::Rc;

use vstd::prelude::*;

use crate::error::{plain_error, Error, ErrorModel};
use crate::text::{decimal, hex, push_decimal, push_hex};

verus! {

/// The largest number of bytes held inline in a handle.
pub const DIRECT_VALUE_SIZE_LIMIT: usize = 8;

/// The shapes a byte vector's storage can take.
#[derive(Debug)]
enum StorageType {
    Empty,
    DirectValue { array: [u8; DIRECT_VALUE_SIZE_LIMIT], length: usize },
    Heap { bytes: Vec<u8> },
    Append { lhs: Rc<StorageType>, rhs: Rc<StorageType>, len: usize },
    View { vstorage: Rc<StorageType>, voffset: usize, vlen: usize },
}

impl StorageType {
    /// The length that the node records for itself.
    spec fn len(&self) -> nat {
        match self {
            StorageType::Empty => 0,
            StorageType::DirectValue { length, .. } => *length as nat,
            StorageType::Heap { bytes } => bytes@.len(),
            StorageType::Append { len, .. } => *len as nat,
            StorageType::View { vlen, .. } => *vlen as nat,
        }
    }

    /// Recorded lengths agree with the children and every window lies inside its target.
    spec fn wf(&self) -> bool
        decreases self,
    {
        match self {
            StorageType::Empty => true,
            StorageType::DirectValue { length, .. } => *length <= DIRECT_VALUE_SIZE_LIMIT,
            StorageType::Heap { .. } => true,
            StorageType::Append { lhs, rhs, len } => {
                &&& lhs.wf()
                &&& rhs.wf()
                &&& *len as nat == lhs.len() + rhs.len()
            },
            StorageType::View { vstorage, voffset, vlen } => {
                &&& vstorage.wf()
                &&& *voffset + *vlen <= vstorage.len()
            },
        }
    }

    /// The bytes the node stands for.
    spec fn bytes(&self) -> Seq<u8>
        decreases self,
    {
        match self {
            StorageType::Empty => Seq::empty(),
            StorageType::DirectValue { array, length } => array@.take(*length as int),
            StorageType::Heap { bytes } => bytes@,
            StorageType::Append { lhs, rhs, .. } => lhs.bytes() + rhs.bytes(),
            StorageType::View { vstorage, voffset, vlen } => vstorage.bytes().subrange(
                *voffset as int,
                *voffset + *vlen,
            ),
        }
    }

    proof fn lemma_len(&self)
        requires
            self.wf(),
        ensures
            self.bytes().len() == self.len(),
        decreases self,
    {
        match self {
            StorageType::Append { lhs, rhs, .. } => {
                lhs.lemma_len();
                rhs.lemma_len();
            },
            StorageType::View { vstorage, .. } => {
                vstorage.lemma_len();
            },
            _ => {},
        }
    }

    fn length(&self) -> (r: usize)
        ensures
            r == self.len(),
    {
        match self {
            StorageType::Empty => 0,
            StorageType::DirectValue { length, .. } => *length,
            StorageType::Heap { bytes } => bytes.len(),
            StorageType::Append { len, .. } => *len,
            StorageType::View { vlen, .. } => *vlen,
        }
    }
}

/// The message of a failed bounds check of a `word` ("view" or "read") at `offset` for `len`
/// bytes against a vector of `vlen` bytes.
pub open spec fn bounds_text(word: Seq<char>, offset: nat, len: nat, vlen: nat) -> Seq<char> {
    if offset > vlen {
        "Requested "@ + word + " offset of "@ + decimal(offset) + " bytes exceeds vector length of "@
            + decimal(vlen)
    } else if offset + len > usize::MAX {
        "Requested "@ + word + " offset of "@ + decimal(offset) + " and length "@ + decimal(len)
            + " bytes would overflow maximum value of usize"@
    } else {
        "Requested "@ + word + " offset of "@ + decimal(offset) + " and length "@ + decimal(len)
            + " bytes exceeds vector length of "@ + decimal(vlen)
    }
}

/// The error of taking a window of `len` bytes at `offset` from a vector of `vlen` bytes.
pub open spec fn view_error(offset: nat, len: nat, vlen: nat) -> ErrorModel {
    plain_error(bounds_text("view"@, offset, len, vlen))
}

/// The error of reading `len` bytes at `offset` from a vector of `vlen` bytes.
pub open spec fn read_error(offset: nat, len: nat, vlen: nat) -> ErrorModel {
    plain_error(bounds_text("read"@, offset, len, vlen))
}

/// The error of dropping `len` bytes from a vector of `vlen` bytes.
pub open spec fn drop_error(len: nat, vlen: nat) -> ErrorModel {
    plain_error(
        "Requested length of "@ + decimal(len) + " bytes exceeds vector length of "@ + decimal(vlen),
    )
}

/// The error of padding a vector of `vlen` bytes to the shorter length `len`.
pub open spec fn pad_error(len: nat, vlen: nat) -> ErrorModel {
    plain_error(
        "Requested padded length of "@ + decimal(len) + " bytes is smaller than vector length of "@
            + decimal(vlen),
    )
}

/// The error of a failed bounds check, with the message that `bounds_text` gives.
pub(crate) fn bounds_error(word: &str, offset: u64, len: u64, vlen: u64) -> (e: Error)
    ensures
        e@ == plain_error(bounds_text(word@, offset as nat, len as nat, vlen as nat)),
{
    let mut s = String::from_str("Requested ");
    s.append(word);
    s.append(" offset of ");
    push_decimal(&mut s, offset);
    if offset > vlen {
        s.append(" bytes exceeds vector length of ");
        push_decimal(&mut s, vlen);
    } else if (usize::MAX as u64) < len || (usize::MAX as u64) - len < offset {
        s.append(" and length ");
        push_decimal(&mut s, len);
        s.append(" bytes would overflow maximum value of usize");
    } else {
        s.append(" and length ");
        push_decimal(&mut s, len);
        s.append(" bytes exceeds vector length of ");
        push_decimal(&mut s, vlen);
    }
    Error::new(s)
}

/// An immutable sequence of bytes whose handles share their storage.
#[derive(Debug)]
pub struct ByteVector {
    storage: Rc<StorageType>,
}

impl View for ByteVector {
    type V = Seq<u8>;

    closed spec fn view(&self) -> Seq<u8> {
        self.storage.bytes()
    }
}

impl ByteVector {
    #[verifier::type_invariant]
    spec fn inv(&self) -> bool {
        self.storage.wf()
    }

    /// The number of bytes.
    pub fn length(&self) -> (r: usize)
        ensures
            r == self@.len(),
    {
        proof {
            use_type_invariant(self);
            self.storage.lemma_len();
        }
        self.storage.length()
    }

    /// A new handle on the same storage.
    pub fn share(&self) -> (r: ByteVector)
        ensures
            r@ == self@,
    {
        proof {
            use_type_invariant(self);
        }
        ByteVector { storage: Rc::clone(&self.storage) }
    }

    /// The window of `len` bytes at `offset` in `storage`, sharing what it can.
    fn view(storage: &Rc<StorageType>, offset: usize, len: usize) -> (r: Result<
        Rc<StorageType>,
        Error,
    >)
        requires
            storage.wf(),
        ensures
            match r {
                Ok(s) => {
                    &&& offset + len <= storage.len()
                    &&& s.wf()
                    &&& s.bytes() == storage.bytes().subrange(offset as int, offset + len)
                },
                Err(e) => {
                    &&& offset + len > storage.len()
                    &&& e@ == view_error(offset as nat, len as nat, storage.len())
                },
            },
        decreases storage,
    {
        proof {
            storage.lemma_len();
        }
        let storage_len = storage.length();
        if offset > storage_len || usize::MAX - offset < len || offset + len > storage_len {
            return Err(bounds_error("view", offset as u64, len as u64, storage_len as u64));
        }
        if len == storage_len {
            assert(storage.bytes().subrange(0, len as int) =~= storage.bytes());
            return Ok(Rc::clone(storage));
        }
        match &**storage {
            StorageType::Append { lhs, rhs, .. } => {
                proof {
                    lhs.lemma_len();
                    rhs.lemma_len();
                }
                let lhs_len = lhs.length();
                if offset + len <= lhs_len {
                    let r = ByteVector::view(lhs, offset, len);
                    assert(storage.bytes().subrange(offset as int, offset + len)
                        =~= lhs.bytes().subrange(offset as int, offset + len));
                    r
                } else if offset >= lhs_len {
                    let r = ByteVector::view(rhs, offset - lhs_len, len);
                    assert(storage.bytes().subrange(offset as int, offset + len)
                        =~= rhs.bytes().subrange(offset - lhs_len, offset - lhs_len + len));
                    r
                } else {
                    let lhs_view_len = lhs_len - offset;
                    let rhs_view_len = len - lhs_view_len;
                    let left = ByteVector::view(lhs, offset, lhs_view_len);
                    let right = ByteVector::view(rhs, 0, rhs_view_len);
                    match (left, right) {
                        (Ok(l), Ok(r)) => {
                            proof {
                                l.lemma_len();
                                r.lemma_len();
                            }
                            assert(storage.bytes().subrange(offset as int, offset + len)
                                =~= l.bytes() + r.bytes());
                            Ok(Rc::new(StorageType::Append { lhs: l, rhs: r, len }))
                        },
                        (Err(e), _) => Err(e),
                        (_, Err(e)) => Err(e),
                    }
                }
            },
            StorageType::View { vstorage, voffset, .. } => {
                proof {
                    vstorage.lemma_len();
                }
                let target_len = vstorage.length();
                assert(*voffset + offset + len <= target_len);
                let r = ByteVector::view(vstorage, *voffset + offset, len);
                assert(storage.bytes().subrange(offset as int, offset + len)
                    =~= vstorage.bytes().subrange(*voffset + offset, *voffset + offset + len));
                r
            },
            _ => {
                Ok(Rc::new(StorageType::View { vstorage: Rc::clone(storage), voffset: offset, vlen: len }))
            },
        }
    }

    /// Copies the bytes of `s` at `offset..offset + len` into `buf` at `pos`.
    fn read_at(s: &StorageType, buf: &mut [u8], pos: usize, offset: usize, len: usize)
        requires
            s.wf(),
            offset + len <= s.len(),
            pos + len <= old(buf)@.len(),
        ensures
            final(buf)@ == spliced(old(buf)@, pos as int, s.bytes().subrange(offset as int, offset + len)),
        decreases s,
    {
        proof {
            s.lemma_len();
        }
        match s {
            StorageType::Empty => {
                assert(spliced(buf@, pos as int, Seq::empty()) =~= buf@);
            },
            StorageType::DirectValue { array, .. } => {
                copy_bytes(array.as_slice(), offset, buf, pos, len);
            },
            StorageType::Heap { bytes } => {
                copy_bytes(bytes.as_slice(), offset, buf, pos, len);
            },
            StorageType::Append { lhs, rhs, .. } => {
                proof {
                    lhs.lemma_len();
                    rhs.lemma_len();
                }
                let lhs_len = lhs.length();
                let buf_len = buf.len();
                let ghost b0 = buf@;
                if offset < lhs_len {
                    let lcount = if lhs_len - offset < len { lhs_len - offset } else { len };
                    ByteVector::read_at(lhs, buf, pos, offset, lcount);
                    let ghost b1 = buf@;
                    if lcount < len {
                        ByteVector::read_at(rhs, buf, pos + lcount, 0, len - lcount);
                        assert(lhs.bytes().subrange(offset as int, offset + lcount)
                            + rhs.bytes().subrange(0, len - lcount)
                            =~= s.bytes().subrange(offset as int, offset + len));
                        assert(buf@ =~= spliced(b0, pos as int, s.bytes().subrange(offset as int, offset + len)));
                    } else {
                        assert(lhs.bytes().subrange(offset as int, offset + lcount)
                            =~= s.bytes().subrange(offset as int, offset + len));
                    }
                } else {
                    ByteVector::read_at(rhs, buf, pos, offset - lhs_len, len);
                    assert(rhs.bytes().subrange(offset - lhs_len, offset - lhs_len + len)
                        =~= s.bytes().subrange(offset as int, offset + len));
                }
            },
            StorageType::View { vstorage, voffset, .. } => {
                proof {
                    vstorage.lemma_len();
                }
                let target_len = vstorage.length();
                assert(*voffset + offset + len <= target_len);
                ByteVector::read_at(vstorage, buf, pos, *voffset + offset, len);
                assert(vstorage.bytes().subrange(*voffset + offset, *voffset + offset + len)
                    =~= s.bytes().subrange(offset as int, offset + len));
            },
        }
    }

    /// Copies `len` bytes at `offset` into the front of `buf`; returns the number copied.
    /// Fails, leaving `buf` as it was, when the range does not lie inside the vector.
    pub fn read(&self, buf: &mut [u8], offset: usize, len: usize) -> (r: Result<usize, Error>)
        requires
            len <= old(buf)@.len(),
        ensures
            match r {
                Ok(n) => {
                    &&& n == len
                    &&& offset + len <= self@.len()
                    &&& final(buf)@ == spliced(old(buf)@, 0, self@.subrange(offset as int, offset + len))
                },
                Err(e) => {
                    &&& offset + len > self@.len()
                    &&& final(buf)@ == old(buf)@
                    &&& e@ == read_error(offset as nat, len as nat, self@.len())
                },
            },
    {
        proof {
            use_type_invariant(self);
            self.storage.lemma_len();
        }
        let storage_len = self.storage.length();
        if offset > storage_len || usize::MAX - offset < len || offset + len > storage_len {
            return Err(bounds_error("read", offset as u64, len as u64, storage_len as u64));
        }
        ByteVector::read_at(&self.storage, buf, 0, offset, len);
        Ok(len)
    }

    /// Copies all the bytes into a contiguous buffer.
    pub fn to_vec(&self) -> (r: Result<Vec<u8>, Error>)
        ensures
            match r {
                Ok(v) => v@ == self@,
                Err(_) => false,
            },
    {
        let n = self.length();
        let mut v: Vec<u8> = Vec::new();
        let mut i: usize = 0;
        while i < n
            invariant
                i <= n,
                v@.len() == i,
            decreases n - i,
        {
            v.push(0);
            i = i + 1;
        }
        match self.read(v.as_mut_slice(), 0, n) {
            Ok(count) => {
                assert(v@ =~= self@);
                Ok(v)
            },
            Err(e) => Err(e),
        }
    }

    /// The first `len` bytes; fails when the vector is shorter.
    pub fn take(&self, len: usize) -> (r: Result<ByteVector, Error>)
        ensures
            match r {
                Ok(t) => len <= self@.len() && t@ == self@.take(len as int),
                Err(e) => len > self@.len() && e@ == view_error(0, len as nat, self@.len()),
            },
    {
        proof {
            use_type_invariant(self);
            self.storage.lemma_len();
        }
        match ByteVector::view(&self.storage, 0, len) {
            Ok(storage) => {
                assert(self@.subrange(0, len as int) =~= self@.take(len as int));
                Ok(ByteVector { storage })
            },
            Err(e) => Err(e),
        }
    }

    /// All but the first `len` bytes; fails when the vector is shorter than `len`.
    pub fn drop(&self, len: usize) -> (r: Result<ByteVector, Error>)
        ensures
            match r {
                Ok(t) => len <= self@.len() && t@ == self@.skip(len as int),
                Err(e) => len > self@.len() && e@ == drop_error(len as nat, self@.len()),
            },
    {
        proof {
            use_type_invariant(self);
        }
        let storage_len = self.length();
        if len > storage_len {
            let mut s = String::from_str("Requested length of ");
            push_decimal(&mut s, len as u64);
            s.append(" bytes exceeds vector length of ");
            push_decimal(&mut s, storage_len as u64);
            return Err(Error::new(s));
        }
        proof {
            self.storage.lemma_len();
        }
        match ByteVector::view(&self.storage, len, storage_len - len) {
            Ok(storage) => {
                assert(self@.subrange(len as int, storage_len as int) =~= self@.skip(len as int));
                Ok(ByteVector { storage })
            },
            Err(e) => Err(e),
        }
    }

    /// The vector widened to `len` bytes by zero bytes in front; fails when it is longer.
    pub fn pad_left(&self, len: usize) -> (r: Result<ByteVector, Error>)
        ensures
            match r {
                Ok(t) => self@.len() <= len && t@ == filled(0, (len - self@.len()) as nat) + self@,
                Err(e) => len < self@.len() && e@ == pad_error(len as nat, self@.len()),
            },
    {
        let storage_len = self.length();
        if len < storage_len {
            Err(pad_error_value(len, storage_len))
        } else if len == storage_len {
            assert(filled(0, 0) + self@ =~= self@);
            Ok(self.clone())
        } else {
            Ok(append(&fill(0, len - storage_len), self))
        }
    }

    /// The vector widened to `len` bytes by zero bytes behind; fails when it is longer.
    pub fn pad_right(&self, len: usize) -> (r: Result<ByteVector, Error>)
        ensures
            match r {
                Ok(t) => self@.len() <= len && t@ == self@ + filled(0, (len - self@.len()) as nat),
                Err(e) => len < self@.len() && e@ == pad_error(len as nat, self@.len()),
            },
    {
        let storage_len = self.length();
        if len < storage_len {
            Err(pad_error_value(len, storage_len))
        } else if len == storage_len {
            assert(self@ + filled(0, 0) =~= self@);
            Ok(self.clone())
        } else {
            Ok(append(self, &fill(0, len - storage_len)))
        }
    }

    /// The bytes in lower-case hexadecimal, two characters each, no separator.
    pub fn to_hex(&self) -> (r: String)
        ensures
            r@ == hex(self@),
    {
        let mut s = String::new();
        match self.to_vec() {
            Ok(v) => push_hex(&mut s, &v),
            Err(_) => {},
        }
        s
    }
}

impl Clone for ByteVector {
    /// A new handle on the same storage.
    fn clone(&self) -> (r: ByteVector)
        ensures
            r@ == self@,
    {
        proof {
            use_type_invariant(self);
        }
        ByteVector { storage: Rc::clone(&self.storage) }
    }
}

impl PartialEq for ByteVector {
    /// Byte vectors are equal when they hold the same bytes, whatever their shape.
    fn eq(&self, other: &ByteVector) -> (r: bool)
        ensures
            r == (self@ == other@),
    {
        let a = self.to_vec();
        let b = other.to_vec();
        match (a, b) {
            (Ok(a), Ok(b)) => {
                if a.len() != b.len() {
                    return false;
                }
                let mut i: usize = 0;
                while i < a.len()
                    invariant
                        a@ == self@,
                        b@ == other@,
                        a@.len() == b@.len(),
                        i <= a@.len(),
                        forall|j: int| 0 <= j < i ==> a@[j] == b@[j],
                    decreases a@.len() - i,
                {
                    if a[i] != b[i] {
                        return false;
                    }
                    i = i + 1;
                }
                assert(a@ =~= b@);
                true
            },
            _ => false,
        }
    }
}

impl vstd::std_specs::cmp::PartialEqSpecImpl for ByteVector {
    open spec fn obeys_eq_spec() -> bool {
        true
    }

    open spec fn eq_spec(&self, other: &ByteVector) -> bool {
        self@ == other@
    }
}

impl Eq for ByteVector {

}

/// An exhaustive read, at offset zero for the whole length, yields exactly the vector's bytes.
pub proof fn lemma_exhaustive_read(v: Seq<u8>, buf: Seq<u8>)
    requires
        v.len() <= buf.len(),
    ensures
        spliced(buf, 0, v.subrange(0, v.len() as int)).take(v.len() as int) == v,
{
    assert(spliced(buf, 0, v.subrange(0, v.len() as int)).take(v.len() as int) =~= v);
}

/// Appending the empty vector on either side gives the other vector's bytes.
pub proof fn lemma_append_identity(empty_bytes: Seq<u8>, v: Seq<u8>)
    requires
        empty_bytes.len() == 0,
    ensures
        empty_bytes + v == v,
        v + empty_bytes == v,
{
    assert(empty_bytes + v =~= v);
    assert(v + empty_bytes =~= v);
}

/// The first `n` bytes followed by all but the first `n` bytes are the whole vector.
pub proof fn lemma_take_drop(v: Seq<u8>, n: int)
    requires
        0 <= n <= v.len(),
    ensures
        v.take(n) + v.skip(n) == v,
{
    assert(v.take(n) + v.skip(n) =~= v);
}

/// A read of `k` bytes at `o` from `a` followed by `b` sees `a`'s bytes, then `b`'s, and only
/// the part of each that the range covers.
pub proof fn lemma_read_locality(a: Seq<u8>, b: Seq<u8>, o: int, k: int)
    requires
        0 <= o,
        0 <= k,
        o + k <= a.len() + b.len(),
    ensures
        (a + b).subrange(o, o + k) == (if o + k <= a.len() {
            a.subrange(o, o + k)
        } else if o >= a.len() {
            b.subrange(o - a.len(), o + k - a.len())
        } else {
            a.subrange(o, a.len() as int) + b.subrange(0, o + k - a.len())
        }),
{
    if o + k <= a.len() {
        assert((a + b).subrange(o, o + k) =~= a.subrange(o, o + k));
    } else if o >= a.len() {
        assert((a + b).subrange(o, o + k) =~= b.subrange(o - a.len(), o + k - a.len()));
    } else {
        assert((a + b).subrange(o, o + k) =~= a.subrange(o, a.len() as int) + b.subrange(
            0,
            o + k - a.len(),
        ));
    }
}

/// Padding to `n` bytes keeps the vector's bytes and adds zero bytes only: behind them on the
/// right, in front of them on the left.
pub proof fn lemma_pad(v: Seq<u8>, n: nat)
    requires
        v.len() <= n,
    ensures
        (v + filled(0, (n - v.len()) as nat)).take(v.len() as int) == v,
        (v + filled(0, (n - v.len()) as nat)).skip(v.len() as int) == filled(0, (n - v.len()) as nat),
        (filled(0, (n - v.len()) as nat) + v).skip(n - v.len()) == v,
        (filled(0, (n - v.len()) as nat) + v).take(n - v.len()) == filled(0, (n - v.len()) as nat),
{
    let z = filled(0, (n - v.len()) as nat);
    assert((v + z).take(v.len() as int) =~= v);
    assert((v + z).skip(v.len() as int) =~= z);
    assert((z + v).skip(n - v.len()) =~= v);
    assert((z + v).take(n - v.len()) =~= z);
}

/// `n` copies of `value`.
pub open spec fn filled(value: u8, n: nat) -> Seq<u8> {
    Seq::new(n, |_i: int| value)
}

/// `b` with `src` written over it from position `pos` on.
pub open spec fn spliced(b: Seq<u8>, pos: int, src: Seq<u8>) -> Seq<u8> {
    b.take(pos) + src + b.skip(pos + src.len())
}

/// Copies `src[offset..offset + len]` into `dst[pos..pos + len]`.
fn copy_bytes(src: &[u8], offset: usize, dst: &mut [u8], pos: usize, len: usize)
    requires
        offset + len <= src@.len(),
        pos + len <= old(dst)@.len(),
    ensures
        final(dst)@ == spliced(old(dst)@, pos as int, src@.subrange(offset as int, offset + len)),
{
    let ghost d0 = dst@;
    let src_len = src.len();
    let dst_len = dst.len();
    let mut i: usize = 0;
    while i < len
        invariant
            i <= len,
            offset + len <= src_len == src@.len(),
            pos + len <= dst_len == d0.len(),
            dst@.len() == d0.len(),
            forall|j: int| 0 <= j < pos ==> dst@[j] == d0[j],
            forall|j: int| pos + len <= j < d0.len() ==> dst@[j] == d0[j],
            forall|j: int| pos + i <= j < pos + len ==> dst@[j] == d0[j],
            forall|j: int| pos <= j < pos + i ==> #[trigger] dst@[j] == src@[offset + j - pos],
        decreases len - i,
    {
        dst[pos + i] = src[offset + i];
        i = i + 1;
    }
    assert(dst@ =~= spliced(d0, pos as int, src@.subrange(offset as int, offset + len)));
}

fn pad_error_value(len: usize, vlen: usize) -> (e: Error)
    ensures
        e@ == pad_error(len as nat, vlen as nat),
{
    let mut s = String::from_str("Requested padded length of ");
    push_decimal(&mut s, len as u64);
    s.append(" bytes is smaller than vector length of ");
    push_decimal(&mut s, vlen as u64);
    Error::new(s)
}

/// The empty byte vector.
pub fn empty() -> (r: ByteVector)
    ensures
        r@ == Seq::<u8>::empty(),
{
    ByteVector { storage: Rc::new(StorageType::Empty) }
}

/// A byte vector that takes over the given buffer.
pub fn from_vec(bytes: Vec<u8>) -> (r: ByteVector)
    ensures
        r@ == bytes@,
{
    ByteVector { storage: Rc::new(StorageType::Heap { bytes }) }
}

/// A byte vector holding a copy of the given bytes, inline when they are few.
pub fn from_slice_copy(bytes: &[u8]) -> (r: ByteVector)
    ensures
        r@ == bytes@,
{
    let n = bytes.len();
    if n <= DIRECT_VALUE_SIZE_LIMIT {
        let mut array = [0u8; DIRECT_VALUE_SIZE_LIMIT];
        copy_bytes(bytes, 0, &mut array, 0, n);
        let ghost a = array@;
        assert(a.take(n as int) =~= bytes@);
        ByteVector { storage: Rc::new(StorageType::DirectValue { array, length: n }) }
    } else {
        let mut v: Vec<u8> = Vec::new();
        let mut i: usize = 0;
        while i < n
            invariant
                i <= n,
                n == bytes@.len(),
                v@ == bytes@.take(i as int),
            decreases n - i,
        {
            v.push(bytes[i]);
            i = i + 1;
            assert(v@ =~= bytes@.take(i as int));
        }
        assert(bytes@.take(n as int) =~= bytes@);
        ByteVector { storage: Rc::new(StorageType::Heap { bytes: v }) }
    }
}

/// A byte vector holding the first `length` of the given inline bytes.
pub fn from_slice(bytes: [u8; DIRECT_VALUE_SIZE_LIMIT], length: usize) -> (r: ByteVector)
    requires
        length <= DIRECT_VALUE_SIZE_LIMIT,
    ensures
        r@ == bytes@.take(length as int),
{
    ByteVector { storage: Rc::new(StorageType::DirectValue { array: bytes, length }) }
}

/// The bytes of `lhs` followed by those of `rhs`, sharing both.
pub fn append(lhs: &ByteVector, rhs: &ByteVector) -> (r: ByteVector)
    requires
        lhs@.len() + rhs@.len() <= usize::MAX,
    ensures
        r@ == lhs@ + rhs@,
{
    proof {
        use_type_invariant(lhs);
        use_type_invariant(rhs);
    }
    let lhs_len = lhs.length();
    let rhs_len = rhs.length();
    if lhs_len == 0 && rhs_len == 0 {
        assert(lhs@ + rhs@ =~= Seq::<u8>::empty());
        empty()
    } else if lhs_len == 0 {
        assert(lhs@ + rhs@ =~= rhs@);
        rhs.clone()
    } else if rhs_len == 0 {
        assert(lhs@ + rhs@ =~= lhs@);
        lhs.clone()
    } else {
        proof {
            lhs.storage.lemma_len();
            rhs.storage.lemma_len();
        }
        let storage = StorageType::Append {
            lhs: Rc::clone(&lhs.storage),
            rhs: Rc::clone(&rhs.storage),
            len: lhs_len + rhs_len,
        };
        ByteVector { storage: Rc::new(storage) }
    }
}

/// A byte vector of `count` copies of `value`.
pub fn fill(value: u8, count: usize) -> (r: ByteVector)
    ensures
        r@ == filled(value, count as nat),
{
    let mut v: Vec<u8> = Vec::new();
    let mut i: usize = 0;
    while i < count
        invariant
            i <= count,
            v@ == filled(value, i as nat),
        decreases count - i,
    {
        v.push(value);
        i = i + 1;
        assert(v@ =~= filled(value, i as nat));
    }
    from_vec(v)
}

} // verus!
