//! Reading fixed-width primitives from a byte buffer in a chosen byte order.

use vstd::prelude::*;

verus! {

/// `false` is little endian, `true` is big endian.
pub type Endianness = bool;

pub const LITTLE_ENDIAN: Endianness = false;

pub const BIG_ENDIAN: Endianness = true;

/// Why a read failed.
#[derive(Debug, Clone, Copy, PartialEq, Eq, Structural)]
pub enum ReadError {
    /// Fewer bytes were left than the value needs.
    UnexpectedEof,
}

/// The number that `bytes` spell with the least significant byte first.
pub open spec fn le_value(bytes: Seq<u8>) -> nat
    decreases bytes.len(),
{
    if bytes.len() == 0 {
        0
    } else {
        bytes[0] as nat + 256 * le_value(bytes.skip(1))
    }
}

/// The number that `bytes` spell with the most significant byte first.
pub open spec fn be_value(bytes: Seq<u8>) -> nat
    decreases bytes.len(),
{
    if bytes.len() == 0 {
        0
    } else {
        256 * be_value(bytes.drop_last()) + bytes.last() as nat
    }
}

/// The unsigned number that `bytes` spell in the given byte order.
pub open spec fn unsigned_value(bytes: Seq<u8>, big_endian: bool) -> nat {
    if big_endian {
        be_value(bytes)
    } else {
        le_value(bytes)
    }
}

/// 256 to the power `n`.
pub open spec fn pow256(n: nat) -> nat
    decreases n,
{
    if n == 0 {
        1
    } else {
        256 * pow256((n - 1) as nat)
    }
}

/// The two's complement number that `bytes` spell in the given byte order.
pub open spec fn signed_value(bytes: Seq<u8>, big_endian: bool) -> int {
    let v = unsigned_value(bytes, big_endian);
    if 2 * v >= pow256(bytes.len()) {
        v - pow256(bytes.len())
    } else {
        v as int
    }
}

/// A byte buffer that is consumed from the front.
pub struct ByteStream<'a> {
    data: &'a [u8],
    pos: usize,
}

impl<'a> ByteStream<'a> {
    #[verifier::type_invariant]
    spec fn inv(self) -> bool {
        self.pos <= self.data@.len()
    }

    /// The bytes that have not been consumed yet.
    pub closed spec fn remaining(self) -> Seq<u8> {
        self.data@.skip(self.pos as int)
    }

    /// The bytes that have been consumed so far.
    pub closed spec fn consumed(self) -> Seq<u8> {
        self.data@.take(self.pos as int)
    }

    /// A stream positioned at the first byte of `data`.
    pub fn new(data: &'a [u8]) -> (s: Self)
        ensures
            s.remaining() == data@,
            s.consumed() == Seq::<u8>::empty(),
    {
        Self { data, pos: 0 }
    }

    /// The number of bytes consumed so far.
    pub fn position(&self) -> (n: usize)
        ensures
            n == self.consumed().len(),
    {
        proof {
            use_type_invariant(self);
        }
        self.pos
    }

    /// The number of bytes left.
    pub fn len(&self) -> (n: usize)
        ensures
            n == self.remaining().len(),
    {
        proof {
            use_type_invariant(self);
        }
        self.data.len() - self.pos
    }

    /// Consumes exactly `length` bytes and returns them. Where fewer are
    /// left, the read fails and the stream is left exhausted.
    pub fn read_exact(&mut self, length: usize) -> (r: Result<&'a [u8], ReadError>)
        ensures
            length <= old(self).remaining().len() ==> r.is_ok(),
            match r {
                Ok(bytes) => {
                    &&& length <= old(self).remaining().len()
                    &&& bytes@ == old(self).remaining().take(length as int)
                    &&& final(self).remaining() == old(self).remaining().skip(length as int)
                    &&& final(self).consumed() == old(self).consumed() + bytes@
                },
                Err(e) => {
                    &&& e == ReadError::UnexpectedEof
                    &&& length > old(self).remaining().len()
                    &&& final(self).remaining().len() == 0
                    &&& final(self).consumed() == old(self).consumed() + old(self).remaining()
                },
            },
    {
        proof {
            use_type_invariant(&*self);
        }
        let total = self.data.len();
        if length <= total - self.pos {
            let start = self.pos;
            let bytes = vstd::slice::slice_subrange(self.data, start, start + length);
            self.pos = start + length;
            assert(bytes@ == old(self).remaining().take(length as int));
            assert(self.remaining() == old(self).remaining().skip(length as int));
            assert(self.consumed() == old(self).consumed() + bytes@);
            Ok(bytes)
        } else {
            self.pos = total;
            assert(self.consumed() == old(self).consumed() + old(self).remaining());
            Err(ReadError::UnexpectedEof)
        }
    }
}

/// `le_value` and `be_value` of `n` bytes stay below 256 to the power `n`.
pub proof fn lemma_value_bound(bytes: Seq<u8>, big_endian: bool)
    ensures
        unsigned_value(bytes, big_endian) < pow256(bytes.len()),
    decreases bytes.len(),
{
    if bytes.len() > 0 {
        if big_endian {
            lemma_value_bound(bytes.drop_last(), true);
        } else {
            lemma_value_bound(bytes.skip(1), false);
        }
    }
}

/// The first powers of 256, up to the width of a `u64`.
pub proof fn lemma_pow256_values()
    ensures
        pow256(0) == 1,
        pow256(1) == 0x100,
        pow256(2) == 0x1_0000,
        pow256(3) == 0x100_0000,
        pow256(4) == 0x1_0000_0000,
        pow256(5) == 0x100_0000_0000,
        pow256(6) == 0x1_0000_0000_0000,
        pow256(7) == 0x100_0000_0000_0000,
        pow256(8) == 0x1_0000_0000_0000_0000,
{
    reveal_with_fuel(pow256, 10);
}

/// Consumes `width` bytes and returns the unsigned number they spell.
fn read_unsigned(data: &mut ByteStream, width: usize, big_endian: bool) -> (r: Result<
    u64,
    ReadError,
>)
    requires
        width <= 8,
    ensures
        match r {
            Ok(v) => {
                &&& width <= old(data).remaining().len()
                &&& v == unsigned_value(old(data).remaining().take(width as int), big_endian)
                &&& v < pow256(width as nat)
                &&& final(data).remaining() == old(data).remaining().skip(width as int)
                &&& final(data).consumed() == old(data).consumed() + old(data).remaining().take(
                    width as int,
                )
            },
            Err(e) => {
                &&& e == ReadError::UnexpectedEof
                &&& width > old(data).remaining().len()
                &&& final(data).remaining().len() == 0
                &&& final(data).consumed() == old(data).consumed() + old(data).remaining()
            },
        },
{
    let bytes = match data.read_exact(width) {
        Ok(bytes) => bytes,
        Err(e) => {
            return Err(e);
        },
    };
    let mut acc: u64 = 0;
    let mut i: usize = 0;
    proof {
        lemma_pow256_values();
    }
    if big_endian {
        while i < width
            invariant
                i <= width <= 8,
                bytes@.len() == width,
                acc == be_value(bytes@.take(i as int)),
                acc < pow256(i as nat),
            decreases width - i,
        {
            proof {
                lemma_pow256_values();
                assert(bytes@.take(i + 1).drop_last() == bytes@.take(i as int));
                assert(bytes@.take(i + 1).last() == bytes@[i as int]);
            }
            acc = acc * 256 + bytes[i] as u64;
            i += 1;
        }
        assert(bytes@.take(width as int) == bytes@);
    } else {
        while i < width
            invariant
                i <= width <= 8,
                bytes@.len() == width,
                acc == le_value(bytes@.skip(width - i)),
                acc < pow256(i as nat),
            decreases width - i,
        {
            proof {
                lemma_pow256_values();
                assert(bytes@.skip(width - i - 1).skip(1) == bytes@.skip(width - i));
            }
            acc = acc * 256 + bytes[width - i - 1] as u64;
            i += 1;
        }
        assert(bytes@.skip(0) == bytes@);
    }
    Ok(acc)
}

/// What a read of one `P` does to a stream: on success the value decodes the
/// first `P::width()` bytes, which are consumed; it fails exactly where fewer
/// bytes are left, and then the stream is exhausted.
pub open spec fn reads<P: Primitive>(
    before: ByteStream,
    big_endian: bool,
    r: Result<P, ReadError>,
    after: ByteStream,
) -> bool {
    match r {
        Ok(v) => {
            &&& P::width() <= before.remaining().len()
            &&& P::decodes(before.remaining().take(P::width() as int), big_endian, v)
            &&& after.remaining() == before.remaining().skip(P::width() as int)
            &&& after.consumed() == before.consumed() + before.remaining().take(P::width() as int)
        },
        Err(e) => {
            &&& e == ReadError::UnexpectedEof
            &&& P::width() > before.remaining().len()
            &&& after.remaining().len() == 0
            &&& after.consumed() == before.consumed() + before.remaining()
        },
    }
}

/// A value of fixed width that can be decoded from bytes in either byte order.
pub trait Primitive: Sized {
    /// The number of bytes that one value occupies.
    spec fn width() -> nat;

    /// Whether `bytes`, read in the given byte order, are the encoding of `value`.
    spec fn decodes(bytes: Seq<u8>, big_endian: bool, value: Self) -> bool;

    /// The same bytes never decode to two values.
    proof fn lemma_decodes_unique(bytes: Seq<u8>, big_endian: bool, a: Self, b: Self)
        requires
            Self::decodes(bytes, big_endian, a),
            Self::decodes(bytes, big_endian, b),
        ensures
            a == b,
    ;

    /// Reads one value from the front of `data` in byte order `E`.
    fn read<const E: bool>(data: &mut ByteStream) -> (r: Result<Self, ReadError>)
        ensures
            match r {
                Ok(v) => {
                    &&& Self::width() <= old(data).remaining().len()
                    &&& Self::decodes(old(data).remaining().take(Self::width() as int), E, v)
                    &&& final(data).remaining() == old(data).remaining().skip(
                        Self::width() as int,
                    )
                    &&& final(data).consumed() == old(data).consumed() + old(
                        data,
                    ).remaining().take(Self::width() as int)
                },
                Err(e) => {
                    &&& e == ReadError::UnexpectedEof
                    &&& Self::width() > old(data).remaining().len()
                    &&& final(data).remaining().len() == 0
                    &&& final(data).consumed() == old(data).consumed() + old(data).remaining()
                },
            },
    ;
}

impl Primitive for u8 {
    open spec fn width() -> nat {
        1
    }

    open spec fn decodes(bytes: Seq<u8>, big_endian: bool, value: Self) -> bool {
        bytes.len() == 1 && value as int == unsigned_value(bytes, big_endian)
    }

    proof fn lemma_decodes_unique(bytes: Seq<u8>, big_endian: bool, a: Self, b: Self) {
    }

    fn read<const E: bool>(data: &mut ByteStream) -> (r: Result<Self, ReadError>) {
        proof {
            lemma_pow256_values();
        }
        match read_unsigned(data, 1, E) {
            Ok(v) => Ok(v as u8),
            Err(e) => Err(e),
        }
    }
}

impl Primitive for u16 {
    open spec fn width() -> nat {
        2
    }

    open spec fn decodes(bytes: Seq<u8>, big_endian: bool, value: Self) -> bool {
        bytes.len() == 2 && value as int == unsigned_value(bytes, big_endian)
    }

    proof fn lemma_decodes_unique(bytes: Seq<u8>, big_endian: bool, a: Self, b: Self) {
    }

    fn read<const E: bool>(data: &mut ByteStream) -> (r: Result<Self, ReadError>) {
        proof {
            lemma_pow256_values();
        }
        match read_unsigned(data, 2, E) {
            Ok(v) => Ok(v as u16),
            Err(e) => Err(e),
        }
    }
}

impl Primitive for u32 {
    open spec fn width() -> nat {
        4
    }

    open spec fn decodes(bytes: Seq<u8>, big_endian: bool, value: Self) -> bool {
        bytes.len() == 4 && value as int == unsigned_value(bytes, big_endian)
    }

    proof fn lemma_decodes_unique(bytes: Seq<u8>, big_endian: bool, a: Self, b: Self) {
    }

    fn read<const E: bool>(data: &mut ByteStream) -> (r: Result<Self, ReadError>) {
        proof {
            lemma_pow256_values();
        }
        match read_unsigned(data, 4, E) {
            Ok(v) => Ok(v as u32),
            Err(e) => Err(e),
        }
    }
}

impl Primitive for u64 {
    open spec fn width() -> nat {
        8
    }

    open spec fn decodes(bytes: Seq<u8>, big_endian: bool, value: Self) -> bool {
        bytes.len() == 8 && value as int == unsigned_value(bytes, big_endian)
    }

    proof fn lemma_decodes_unique(bytes: Seq<u8>, big_endian: bool, a: Self, b: Self) {
    }

    fn read<const E: bool>(data: &mut ByteStream) -> (r: Result<Self, ReadError>) {
        read_unsigned(data, 8, E)
    }
}

impl Primitive for i8 {
    open spec fn width() -> nat {
        1
    }

    open spec fn decodes(bytes: Seq<u8>, big_endian: bool, value: Self) -> bool {
        bytes.len() == 1 && value as int == signed_value(bytes, big_endian)
    }

    proof fn lemma_decodes_unique(bytes: Seq<u8>, big_endian: bool, a: Self, b: Self) {
    }

    fn read<const E: bool>(data: &mut ByteStream) -> (r: Result<Self, ReadError>) {
        proof {
            lemma_pow256_values();
        }
        match read_unsigned(data, 1, E) {
            Ok(v) => Ok(
                if v < 0x80 {
                    v as i8
                } else {
                    (v as i64 - 0x100) as i8
                },
            ),
            Err(e) => Err(e),
        }
    }
}

impl Primitive for i16 {
    open spec fn width() -> nat {
        2
    }

    open spec fn decodes(bytes: Seq<u8>, big_endian: bool, value: Self) -> bool {
        bytes.len() == 2 && value as int == signed_value(bytes, big_endian)
    }

    proof fn lemma_decodes_unique(bytes: Seq<u8>, big_endian: bool, a: Self, b: Self) {
    }

    fn read<const E: bool>(data: &mut ByteStream) -> (r: Result<Self, ReadError>) {
        proof {
            lemma_pow256_values();
        }
        match read_unsigned(data, 2, E) {
            Ok(v) => Ok(
                if v < 0x8000 {
                    v as i16
                } else {
                    (v as i64 - 0x1_0000) as i16
                },
            ),
            Err(e) => Err(e),
        }
    }
}

impl Primitive for i32 {
    open spec fn width() -> nat {
        4
    }

    open spec fn decodes(bytes: Seq<u8>, big_endian: bool, value: Self) -> bool {
        bytes.len() == 4 && value as int == signed_value(bytes, big_endian)
    }

    proof fn lemma_decodes_unique(bytes: Seq<u8>, big_endian: bool, a: Self, b: Self) {
    }

    fn read<const E: bool>(data: &mut ByteStream) -> (r: Result<Self, ReadError>) {
        proof {
            lemma_pow256_values();
        }
        match read_unsigned(data, 4, E) {
            Ok(v) => Ok(
                if v < 0x8000_0000 {
                    v as i32
                } else {
                    (v as i64 - 0x1_0000_0000) as i32
                },
            ),
            Err(e) => Err(e),
        }
    }
}

impl Primitive for i64 {
    open spec fn width() -> nat {
        8
    }

    open spec fn decodes(bytes: Seq<u8>, big_endian: bool, value: Self) -> bool {
        bytes.len() == 8 && value as int == signed_value(bytes, big_endian)
    }

    proof fn lemma_decodes_unique(bytes: Seq<u8>, big_endian: bool, a: Self, b: Self) {
    }

    fn read<const E: bool>(data: &mut ByteStream) -> (r: Result<Self, ReadError>) {
        proof {
            lemma_pow256_values();
        }
        match read_unsigned(data, 8, E) {
            Ok(v) => Ok(
                if v < 0x8000_0000_0000_0000 {
                    v as i64
                } else {
                    (v - 0x8000_0000_0000_0000) as i64 + i64::MIN
                },
            ),
            Err(e) => Err(e),
        }
    }
}

/// Reads primitives from a byte buffer in the byte order `E`.
pub struct Reader<'a, const E: bool> {
    data: ByteStream<'a>,
}

impl<'a> Reader<'a, LITTLE_ENDIAN> {
    /// A little-endian reader at the start of `data`.
    pub fn new_le(data: &'a [u8]) -> (reader: Self)
        ensures
            reader@.remaining() == data@,
            reader@.consumed() == Seq::<u8>::empty(),
    {
        Self { data: ByteStream::new(data) }
    }
}

impl<'a> Reader<'a, BIG_ENDIAN> {
    /// A big-endian reader at the start of `data`.
    pub fn new_be(data: &'a [u8]) -> (reader: Self)
        ensures
            reader@.remaining() == data@,
            reader@.consumed() == Seq::<u8>::empty(),
    {
        Self { data: ByteStream::new(data) }
    }
}

impl<'a, const E: bool> View for Reader<'a, E> {
    type V = ByteStream<'a>;

    closed spec fn view(&self) -> ByteStream<'a> {
        self.data
    }
}

impl<'a, const E: bool> Reader<'a, E> {
    /// Reads one `P` in this reader's byte order.
    pub fn read_prim<P: Primitive>(&mut self) -> (r: Result<P, ReadError>)
        ensures
            reads::<P>(old(self)@, E, r, final(self)@),
    {
        P::read::<E>(&mut self.data)
    }

    /// Reads the next `length` bytes into a vector of their own.
    pub fn read_buf(&mut self, length: usize) -> (r: Result<Vec<u8>, ReadError>)
        ensures
            match r {
                Ok(buf) => {
                    &&& length <= old(self)@.remaining().len()
                    &&& buf@ == old(self)@.remaining().take(length as int)
                    &&& final(self)@.remaining() == old(self)@.remaining().skip(length as int)
                    &&& final(self)@.consumed() == old(self)@.consumed() + buf@
                },
                Err(e) => {
                    &&& e == ReadError::UnexpectedEof
                    &&& length > old(self)@.remaining().len()
                    &&& final(self)@.remaining().len() == 0
                    &&& final(self)@.consumed() == old(self)@.consumed() + old(self)@.remaining()
                },
            },
    {
        match self.data.read_exact(length) {
            Ok(bytes) => Ok(vstd::slice::slice_to_vec(bytes)),
            Err(e) => Err(e),
        }
    }

    /// The number of bytes read so far.
    pub fn position(&self) -> (n: usize)
        ensures
            n == self@.consumed().len(),
    {
        self.data.position()
    }
}

/// The `i`-th of the consecutive pieces of `width` bytes each that make up `bytes`.
pub open spec fn piece(bytes: Seq<u8>, width: nat, i: int) -> Seq<u8> {
    bytes.subrange(i * width, (i + 1) * width)
}

impl<T: Primitive + Copy + Default, const N: usize> Primitive for [T; N] {
    open spec fn width() -> nat {
        N as nat * T::width()
    }

    /// The elements are encoded one after the other, each in the given byte order.
    open spec fn decodes(bytes: Seq<u8>, big_endian: bool, value: Self) -> bool {
        &&& bytes.len() == N as nat * T::width()
        &&& forall|i: int|
            0 <= i < N ==> T::decodes(#[trigger] piece(bytes, T::width(), i), big_endian, value[i])
    }

    proof fn lemma_decodes_unique(bytes: Seq<u8>, big_endian: bool, a: Self, b: Self) {
        assert forall|i: int| 0 <= i < N implies a[i] == b[i] by {
            T::lemma_decodes_unique(piece(bytes, T::width(), i), big_endian, a[i], b[i]);
        }
        assert(a =~= b);
    }

    fn read<const E: bool>(data: &mut ByteStream) -> (r: Result<Self, ReadError>) {
        let mut vals: [T; N] = [T::default();N];
        let ghost w = T::width();
        let ghost start = data.remaining();
        let mut i: usize = 0;
        assert(start.take(0) == Seq::<u8>::empty());
        while i < N
            invariant
                i <= N,
                w == T::width(),
                i * w <= start.len(),
                data.remaining() == start.skip(i * w),
                data.consumed() == old(data).consumed() + start.take(i * w),
                start == old(data).remaining(),
                forall|j: int|
                    0 <= j < i ==> T::decodes(#[trigger] piece(start, w, j), E, vals[j]),
            decreases N - i,
        {
            assert((i + 1) * w == i * w + w) by (nonlinear_arith);
            match T::read::<E>(data) {
                Ok(v) => {
                    vals[i] = v;
                    assert(start.skip(i * w).take(w as int) == piece(start, w, i as int));
                    assert(start.skip(i * w).skip(w as int) == start.skip((i + 1) * w));
                    assert(start.take(i * w) + piece(start, w, i as int) == start.take(
                        (i + 1) * w,
                    ));
                },
                Err(e) => {
                    assert((i + 1) * w <= N * w) by (nonlinear_arith)
                        requires
                            i < N,
                    ;
                    assert(start.take(i * w) + start.skip(i * w) == start);
                    return Err(e);
                },
            }
            i += 1;
        }
        proof {
            let taken = start.take((N * w) as int);
            assert forall|j: int| 0 <= j < N implies T::decodes(
                #[trigger] piece(taken, w, j),
                E,
                vals[j],
            ) by {
                assert((j + 1) * w <= N * w) by (nonlinear_arith)
                    requires
                        j < N,
                ;
                assert(0 <= j * w) by (nonlinear_arith)
                    requires
                        0 <= j,
                ;
                assert(j * w <= (j + 1) * w) by (nonlinear_arith);
                assert(piece(taken, w, j) == piece(start, w, j));
            }
        }
        Ok(vals)
    }
}

/// An array of bytes decodes from exactly its own bytes, in either byte order.
pub proof fn lemma_byte_array_decodes<const N: usize>(
    bytes: Seq<u8>,
    big_endian: bool,
    value: [u8; N],
)
    requires
        <[u8; N] as Primitive>::decodes(bytes, big_endian, value),
    ensures
        value@ == bytes,
{
    assert(bytes.len() == N) by (nonlinear_arith)
        requires
            bytes.len() == N as nat * 1,
    ;
    assert forall|i: int| 0 <= i < N implies value@[i] == bytes[i] by {
        let one = piece(bytes, 1, i);
        assert(u8::decodes(one, big_endian, value[i]));
        assert(one.len() == 1);
        assert(one[0] == bytes[i]);
        assert(one.skip(1).len() == 0);
        assert(one.drop_last().len() == 0);
        assert(one.last() == bytes[i]);
    }
    assert(value@ =~= bytes);
}

} // verus!
