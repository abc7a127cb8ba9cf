//! The wire format: a scrambling of bytes, the frames that carry compressed
//! data, the fixed-size greeting text, status bytes, and the plan by which
//! long transfers are cut into blocks.
use vstd::prelude::*;
use vstd::utf8::{
    decode_utf8, encode_scalar, encode_utf8, encode_utf8_decode_utf8, encode_utf8_valid_utf8, valid_utf8,
};
use crate::types::{BUFFER_SIZE, DEFAULT_ERROR, DEFAULT_OK, MAGIC_NUMBER};
use crate::utils::text::{to_chars, trim_chars, trim_end_spec, trim_spec};

verus! {

/// The key that scrambles every byte sent over the wire: the first four
/// bytes of the greeting `MAGIC_NUMBER`.
pub const ENCODE_KEY: [u8; 4] = [0x5A, 0x35, 0x33, 0x59];

/// The byte that `encode` gives for position `i` of `b`.
pub open spec fn encoded_byte(b: Seq<u8>, i: int) -> u8 {
    b[i] ^ ENCODE_KEY@[i % 4]
}

/// What `encode` makes of a buffer.
pub open spec fn encoded(b: Seq<u8>) -> Seq<u8> {
    Seq::new(b.len(), |i: int| encoded_byte(b, i))
}

/// Scrambles (and, applied again, unscrambles) a buffer in place.
pub fn encode(buf: &mut [u8])
    ensures
        final(buf)@ == encoded(old(buf)@),
{
    let n = buf.len();
    let mut i: usize = 0;
    while i < n
        invariant
            n == buf@.len(),
            n == old(buf)@.len(),
            i <= n,
            forall|j: int| 0 <= j < i ==> buf@[j] == encoded_byte(old(buf)@, j),
            forall|j: int| i <= j < n ==> buf@[j] == old(buf)@[j],
        decreases n - i,
    {
        buf[i] = buf[i] ^ ENCODE_KEY[i % 4];
        i = i + 1;
    }
    assert(buf@ =~= encoded(old(buf)@));
}

/// Scrambling twice gives back the bytes one started with.
pub proof fn lemma_encode_involution(b: Seq<u8>)
    ensures
        encoded(encoded(b)) == b,
{
    assert forall|i: int| 0 <= i < b.len() implies #[trigger] encoded(encoded(b))[i] == b[i] by {
        let x = b[i];
        let k = ENCODE_KEY@[i % 4];
        assert((x ^ k) ^ k == x) by (bit_vector);
    }
    assert(encoded(encoded(b)) =~= b);
}

/// Scrambling two pieces one after the other, the first a whole number of
/// key lengths long, is scrambling them joined: so a stream scrambled block by
/// block in blocks of `BUFFER_SIZE` reads as the stream scrambled whole.
pub proof fn lemma_encode_concat(a: Seq<u8>, b: Seq<u8>)
    requires
        a.len() % 4 == 0,
    ensures
        encoded(a + b) == encoded(a) + encoded(b),
{
    assert forall|i: int| 0 <= i < a.len() + b.len() implies #[trigger] encoded(a + b)[i] == (
    encoded(a) + encoded(b))[i] by {
        if i >= a.len() {
            assert((i - a.len()) % 4 == i % 4);
        }
    }
    assert(encoded(a + b) =~= encoded(a) + encoded(b));
}

/// The outside error of the compression library.
#[verifier::external_type_specification]
#[verifier::external_body]
pub struct ExLz4Error(lzzzz::Error);

/// Why a transfer was refused.
#[derive(Debug)]
pub enum NetError {
    /// The peer sent what the protocol does not allow.
    InvalidData,
    /// The compression library failed.
    Lz4(lzzzz::Error),
    /// The data is longer than the compression library takes.
    TooLong,
}

/// What LZ4 block decompression of `src` into a buffer holding `dst` gives:
/// the number of bytes written and the buffer afterwards, or nothing when it
/// fails.
pub uninterp spec fn lz4_decompress_into(src: Seq<u8>, dst: Seq<u8>) -> Option<(usize, Seq<u8>)>;

/// The largest input that LZ4 compresses.
pub open spec fn lz4_max_input() -> nat {
    0x7E00_0000
}

/// The most bytes that LZ4 makes of `n` bytes.
pub open spec fn lz4_bound(n: nat) -> nat {
    n + n / 255 + 16
}

/// Whether `c` is an LZ4 block that decompresses to `x` into any buffer of
/// `x`'s length.
pub open spec fn is_lz4_block_of(c: Seq<u8>, x: Seq<u8>) -> bool {
    forall|d: Seq<u8>|
        d.len() == x.len() ==> #[trigger] lz4_decompress_into(c, d) == Some::<(usize, Seq<u8>)>(
            (x.len() as usize, x),
        )
}

/// Writes into `dst` the LZ4 block compression of `src` at acceleration
/// `acc`, and gives the block's length.
///
/// Calls `lzzzz::lz4::compress`. Claims, from the library and its C source:
/// with `src` no longer than `LZ4_MAX_INPUT_SIZE` and `dst` exactly
/// `LZ4_COMPRESSBOUND(src.len())` bytes long, the C code takes its unlimited
/// path and does not fail; an empty `src` writes nothing; otherwise the first
/// bytes of `dst`, as many as returned, are a block that decompresses to
/// `src`. Which block it is, and what the rest of `dst` holds, is not said:
/// the library reuses a per-thread state, so two calls on one input may give
/// different blocks.
#[verifier::external_body]
fn lz4_compress(src: &[u8], dst: &mut [u8], acc: i32) -> (r: Result<usize, lzzzz::Error>)
    requires
        src@.len() <= lz4_max_input(),
        old(dst)@.len() == lz4_bound(src@.len()),
    ensures
        final(dst)@.len() == old(dst)@.len(),
        r is Ok,
        r matches Ok(n) ==> {
            &&& n <= old(dst)@.len()
            &&& (src@.len() == 0 ==> n == 0)
            &&& (src@.len() > 0 ==> is_lz4_block_of(final(dst)@.take(n as int), src@))
        },
{
    lzzzz::lz4::compress(src, dst, acc)
}

/// Decompresses the LZ4 block `src` into `dst`.
///
/// Calls `lzzzz::lz4::decompress`, whose result is named
/// `lz4_decompress_into`. What `dst` holds after a failure is not said.
#[verifier::external_body]
fn lz4_decompress(src: &[u8], dst: &mut [u8]) -> (r: Result<usize, lzzzz::Error>)
    ensures
        final(dst)@.len() == old(dst)@.len(),
        match lz4_decompress_into(src@, old(dst)@) {
            Some(out) => r matches Ok(n) && n == out.0 && n <= old(dst)@.len() && final(dst)@ == out.1,
            None => r is Err,
        },
{
    lzzzz::lz4::decompress(src, dst)
}

/// `n` as four bytes, most significant first.
pub open spec fn be32(n: nat) -> Seq<u8> {
    seq![(n / 0x100_0000 % 0x100) as u8, (n / 0x1_0000 % 0x100) as u8, (n / 0x100 % 0x100) as u8, (n % 0x100) as u8]
}

/// The number that four bytes write, most significant first.
pub open spec fn be32_value(b: Seq<u8>) -> nat {
    (b[0] as nat) * 0x100_0000 + (b[1] as nat) * 0x1_0000 + (b[2] as nat) * 0x100 + (b[3] as nat)
}

/// A frame: the length of the data, the length of its compressed block
/// `packed`, the scrambled block, and the status byte for success.
pub open spec fn frame_spec(orig_len: nat, packed: Seq<u8>) -> Seq<u8> {
    be32(orig_len) + be32(packed.len()) + encoded(packed) + seq![DEFAULT_OK]
}

/// Appends `n` to `out` as four bytes, most significant first.
fn push_be32(out: &mut Vec<u8>, n: u32)
    ensures
        final(out)@ == old(out)@ + be32(n as nat),
{
    out.push((n / 0x100_0000 % 0x100) as u8);
    out.push((n / 0x1_0000 % 0x100) as u8);
    out.push((n / 0x100 % 0x100) as u8);
    out.push((n % 0x100) as u8);
    assert(out@ =~= old(out)@ + be32(n as nat));
}

/// The frame that carries `packed`, the compressed block of data `orig_len` long.
pub fn build_frame(orig_len: u32, packed: &[u8]) -> (f: Vec<u8>)
    requires
        packed@.len() <= u32::MAX,
    ensures
        f@ == frame_spec(orig_len as nat, packed@),
{
    let mut f: Vec<u8> = Vec::new();
    push_be32(&mut f, orig_len);
    push_be32(&mut f, packed.len() as u32);
    let mut body: Vec<u8> = Vec::new();
    let mut i: usize = 0;
    while i < packed.len()
        invariant
            i <= packed@.len(),
            body@ == packed@.take(i as int),
        decreases packed@.len() - i,
    {
        body.push(packed[i]);
        assert(packed@.take(i + 1) =~= packed@.take(i as int).push(packed@[i as int]));
        i = i + 1;
    }
    assert(packed@.take(packed@.len() as int) =~= packed@);
    encode(body.as_mut_slice());
    let mut j: usize = 0;
    let ghost head = f@;
    while j < body.len()
        invariant
            j <= body@.len(),
            body@ == encoded(packed@),
            f@ == head + body@.take(j as int),
        decreases body@.len() - j,
    {
        f.push(body[j]);
        assert(body@.take(j + 1) =~= body@.take(j as int).push(body@[j as int]));
        j = j + 1;
    }
    assert(body@.take(body@.len() as int) =~= body@);
    f.push(DEFAULT_OK);
    assert(f@ =~= frame_spec(orig_len as nat, packed@));
    f
}

/// The frame that carries `buf`: its compressed block behind the two
/// lengths, scrambled, and the status byte for success. It fails when `buf`
/// is longer than the compression library takes.
pub fn encode_frame(buf: &[u8]) -> (r: Result<Vec<u8>, NetError>)
    ensures
        r is Err <==> buf@.len() > lz4_max_input(),
        r matches Err(e) ==> e is TooLong,
        r matches Ok(f) ==> exists|c: Seq<u8>|
            #![trigger frame_spec(buf@.len(), c)]
            {
                &&& c.len() <= lz4_bound(buf@.len())
                &&& (buf@.len() == 0 ==> c.len() == 0)
                &&& (buf@.len() > 0 ==> is_lz4_block_of(c, buf@))
                &&& f@ == frame_spec(buf@.len(), c)
            },
{
    if buf.len() > 0x7E00_0000 {
        return Err(NetError::TooLong);
    }
    let bound = buf.len() + buf.len() / 255 + 16;
    let mut out: Vec<u8> = vec![0u8; bound];
    match lz4_compress(buf, out.as_mut_slice(), 1) {
        Err(e) => Err(NetError::Lz4(e)),
        Ok(n) => {
            out.truncate(n);
            assert(lz4_bound(buf@.len()) <= u32::MAX);
            let f = build_frame(buf.len() as u32, out.as_slice());
            Ok(f)
        },
    }
}

/// The two lengths at the head of a frame: of the data, and of its block.
pub fn frame_sizes(header: &[u8]) -> (r: (usize, usize))
    requires
        header@.len() == 8,
    ensures
        r.0 == be32_value(header@.subrange(0, 4)),
        r.1 == be32_value(header@.subrange(4, 8)),
{
    let a = (header[0] as usize) * 0x100_0000 + (header[1] as usize) * 0x1_0000 + (header[2] as usize)
        * 0x100 + header[3] as usize;
    let b = (header[4] as usize) * 0x100_0000 + (header[5] as usize) * 0x1_0000 + (header[6] as usize)
        * 0x100 + header[7] as usize;
    (a, b)
}

/// Four bytes written by `be32` read back as the number.
pub proof fn lemma_be32_roundtrip(n: nat)
    requires
        n <= u32::MAX,
    ensures
        be32(n).len() == 4,
        be32_value(be32(n)) == n,
{
    let v = n as u32;
    assert(((v / 0x100_0000 % 0x100) as u8) as nat * 0x100_0000 + ((v / 0x1_0000 % 0x100) as u8) as nat
        * 0x1_0000 + ((v / 0x100 % 0x100) as u8) as nat * 0x100 + ((v % 0x100) as u8) as nat == v)
        by (bit_vector);
}

/// `n` zero bytes.
pub open spec fn zeros(n: nat) -> Seq<u8> {
    Seq::new(n, |i: int| 0u8)
}

/// What a frame's tail gives: nothing unless the status byte is the one for
/// success, and otherwise the outcome of decompressing the unscrambled block
/// into `size_orig` zero bytes.
pub open spec fn finish_frame_spec(packed: Seq<u8>, trailer: u8, size_orig: nat) -> Option<
    Seq<u8>,
> {
    if trailer != DEFAULT_OK {
        None
    } else {
        match lz4_decompress_into(encoded(packed), zeros(size_orig)) {
            Some(out) => Some(out.1),
            None => None,
        }
    }
}

/// The data that a frame carries, given the scrambled block `packed`, the
/// status byte that followed it, and the length of the data from the head.
/// A status byte other than the one for success is refused as invalid data.
pub fn finish_frame(packed: Vec<u8>, trailer: u8, size_orig: usize) -> (r: Result<
    Vec<u8>,
    NetError,
>)
    ensures
        r is Ok <==> finish_frame_spec(packed@, trailer, size_orig as nat) is Some,
        r matches Ok(v) ==> finish_frame_spec(packed@, trailer, size_orig as nat) == Some(v@),
        trailer != DEFAULT_OK ==> (r matches Err(e) && e is InvalidData),
        trailer == DEFAULT_OK && r is Err ==> (r matches Err(e) && e is Lz4),
        forall|x: Seq<u8>|
            trailer == DEFAULT_OK && x.len() == size_orig && x.len() > 0 && is_lz4_block_of(
                encoded(packed@),
                x,
            ) ==> (r matches Ok(v) && v@ == x),
{
    if trailer != DEFAULT_OK {
        return Err(NetError::InvalidData);
    }
    let mut packed = packed;
    encode(packed.as_mut_slice());
    let mut dec: Vec<u8> = Vec::with_capacity(size_orig);
    let mut i: usize = 0;
    while i < size_orig
        invariant
            i <= size_orig,
            dec@ == zeros(i as nat),
        decreases size_orig - i,
    {
        dec.push(0u8);
        assert(dec@ =~= zeros((i + 1) as nat));
        i = i + 1;
    }
    let ghost z = dec@;
    match lz4_decompress(packed.as_slice(), dec.as_mut_slice()) {
        Ok(_) => {
            proof {
                assert(z.len() == size_orig);
            }
            Ok(dec)
        },
        Err(e) => Err(NetError::Lz4(e)),
    }
}

/// A frame that `encode_frame` builds reads back, through `frame_sizes` and
/// `finish_frame`, as the data it was built from, whenever that data is not
/// empty.
pub proof fn lemma_frame_roundtrip(x: Seq<u8>, c: Seq<u8>)
    requires
        0 < x.len() <= lz4_max_input(),
        c.len() <= lz4_bound(x.len()),
        is_lz4_block_of(c, x),
    ensures
        ({
            let f = frame_spec(x.len(), c);
            let n = c.len();
            &&& f.len() == 8 + n + 1
            &&& be32_value(f.subrange(0, 4)) == x.len()
            &&& be32_value(f.subrange(4, 8)) == n
            &&& finish_frame_spec(f.subrange(8, 8 + n as int), f[8 + n as int], x.len()) == Some(x)
        }),
{
    let f = frame_spec(x.len(), c);
    let n = c.len();
    lemma_be32_roundtrip(x.len());
    lemma_be32_roundtrip(n);
    assert(f.subrange(0, 4) =~= be32(x.len()));
    assert(f.subrange(4, 8) =~= be32(n));
    assert(f.subrange(8, 8 + n as int) =~= encoded(c));
    lemma_encode_involution(c);
    assert(lz4_decompress_into(c, zeros(x.len())) == Some::<(usize, Seq<u8>)>((x.len() as usize, x)));
}

/// How many bytes the next block of a transfer takes, `pos` of `total`
/// being done: a full buffer while more than that is left, then the rest.
pub fn next_block_len(pos: usize, total: usize) -> (r: usize)
    requires
        pos <= total,
    ensures
        r == (if pos + BUFFER_SIZE < total {
            BUFFER_SIZE as int
        } else {
            total - pos
        }),
        r <= BUFFER_SIZE,
        pos + r <= total,
        pos < total ==> r > 0,
{
    if total - pos > BUFFER_SIZE {
        BUFFER_SIZE
    } else {
        total - pos
    }
}

/// How many bytes the next block of a file transfer takes, `pos` of `size`
/// being done.
pub fn next_file_block_len(pos: u64, size: u64) -> (r: u64)
    requires
        pos <= size,
    ensures
        r == (if pos + BUFFER_SIZE < size {
            BUFFER_SIZE as int
        } else {
            size - pos
        }),
        r <= BUFFER_SIZE,
        pos + r <= size,
        pos < size ==> r > 0,
{
    if size - pos > BUFFER_SIZE as u64 {
        BUFFER_SIZE as u64
    } else {
        size - pos
    }
}

/// The length of the block that starts at `pos` of a transfer of `total` bytes.
pub open spec fn block_len(pos: nat, total: nat) -> nat {
    if pos + BUFFER_SIZE < total {
        BUFFER_SIZE as nat
    } else {
        (total - pos) as nat
    }
}

/// `data` from `pos` on, scrambled block by block, each block scrambled on
/// its own as `stream_send_file` and `server_recv_file` do it.
pub open spec fn encode_blocks(data: Seq<u8>, pos: nat) -> Seq<u8>
    decreases data.len() - pos,
{
    if pos >= data.len() {
        Seq::empty()
    } else {
        let r = block_len(pos, data.len());
        encoded(data.subrange(pos as int, (pos + r) as int)) + encode_blocks(data, pos + r)
    }
}

/// Scrambling a transfer block by block is scrambling it whole, because
/// every block but the last is a whole number of key lengths long: so the
/// receiver, unscrambling block by block, gets the data back.
pub proof fn lemma_blockwise_encode(data: Seq<u8>)
    ensures
        encode_blocks(data, 0) == encoded(data),
        encoded(encode_blocks(data, 0)) == data,
{
    lemma_blockwise_encode_from(data, 0);
    assert(data.skip(0) =~= data);
    lemma_encode_involution(data);
}

/// Scrambling block by block from a block boundary.
proof fn lemma_blockwise_encode_from(data: Seq<u8>, pos: nat)
    requires
        pos <= data.len(),
        pos % 4 == 0,
    ensures
        encode_blocks(data, pos) == encoded(data.skip(pos as int)),
    decreases data.len() - pos,
{
    if pos >= data.len() {
        assert(encoded(data.skip(pos as int)) =~= Seq::<u8>::empty());
    } else {
        let r = block_len(pos, data.len());
        let a = data.subrange(pos as int, (pos + r) as int);
        let b = data.skip((pos + r) as int);
        assert(data.skip(pos as int) =~= a + b);
        assert(encode_blocks(data, pos) == encoded(a) + encode_blocks(data, pos + r));
        if r == BUFFER_SIZE {
            lemma_encode_concat(a, b);
            lemma_blockwise_encode_from(data, pos + r);
        } else {
            assert(pos + r == data.len());
            assert(encode_blocks(data, pos + r) == Seq::<u8>::empty());
            assert(b =~= Seq::<u8>::empty());
            assert(a + b =~= a);
            assert(encoded(a) + Seq::<u8>::empty() =~= encoded(a));
        }
    }
}

/// The status byte read from the peer: the one for failure is refused.
pub fn check_status(st: u8) -> (r: Result<u8, NetError>)
    ensures
        st == DEFAULT_ERROR ==> (r matches Err(e) && e is InvalidData),
        st != DEFAULT_ERROR ==> (r matches Ok(b) && b == st),
{
    if st == DEFAULT_ERROR {
        return Err(NetError::InvalidData);
    }
    Ok(st)
}

/// The byte that closes a frame or a file transfer: anything but the one
/// for success is refused.
pub fn check_trailer(b: u8) -> (r: Result<(), NetError>)
    ensures
        r is Ok <==> b == DEFAULT_OK,
        r matches Err(e) ==> e is InvalidData,
{
    if b != DEFAULT_OK {
        return Err(NetError::InvalidData);
    }
    Ok(())
}

/// The text of some bytes, when they are UTF-8.
///
/// Calls `String::from_utf8`: it succeeds exactly on valid UTF-8 and then
/// holds the characters that the bytes encode.
#[verifier::external_body]
fn utf8_string(bytes: Vec<u8>) -> (r: Option<String>)
    ensures
        r is Some <==> valid_utf8(bytes@),
        r matches Some(s) ==> s@ == decode_utf8(bytes@),
{
    String::from_utf8(bytes).ok()
}

/// The text that received data holds; data that is not UTF-8 is refused.
pub fn data_text(data: Vec<u8>) -> (r: Result<String, NetError>)
    ensures
        r is Ok <==> valid_utf8(data@),
        r matches Ok(s) ==> s@ == decode_utf8(data@),
        r matches Err(e) ==> e is InvalidData,
{
    match utf8_string(data) {
        Some(s) => Ok(s),
        None => Err(NetError::InvalidData),
    }
}

/// The bytes of a space.
pub open spec fn spaces(n: nat) -> Seq<u8> {
    Seq::new(n, |i: int| 0x20u8)
}

/// The 32 bytes that carry a short text: its UTF-8 bytes with spaces behind.
pub open spec fn padded32(s: Seq<char>) -> Seq<u8> {
    (encode_utf8(s) + spaces(42)).take(32)
}

/// The 32 bytes that carry `s`; a text of more than 32 bytes is refused.
pub fn string32_bytes(s: &str) -> (r: Result<Vec<u8>, NetError>)
    ensures
        r is Ok <==> encode_utf8(s@).len() <= 32,
        r matches Ok(v) ==> v@ == padded32(s@),
        r matches Err(e) ==> e is InvalidData,
{
    let b = s.as_bytes();
    if b.len() > 32 {
        return Err(NetError::InvalidData);
    }
    let mut v: Vec<u8> = Vec::new();
    let mut i: usize = 0;
    while i < 32
        invariant
            i <= 32,
            b@ == encode_utf8(s@),
            b@.len() <= 32,
            v@ == padded32(s@).take(i as int),
        decreases 32 - i,
    {
        let byte = if i < b.len() {
            b[i]
        } else {
            0x20u8
        };
        assert(padded32(s@)[i as int] == byte);
        v.push(byte);
        assert(padded32(s@).take(i + 1) =~= padded32(s@).take(i as int).push(byte));
        i = i + 1;
    }
    assert(padded32(s@).take(32) =~= padded32(s@));
    Ok(v)
}

/// The text of a 32-byte field, white space cut from both ends; bytes that
/// are not UTF-8 are refused.
pub fn string32_text(buf: &[u8]) -> (r: Result<String, NetError>)
    ensures
        r is Ok <==> valid_utf8(buf@),
        r matches Ok(s) ==> s@ == trim_spec(decode_utf8(buf@)),
        r matches Err(e) ==> e is InvalidData,
{
    let mut copy: Vec<u8> = Vec::new();
    let mut i: usize = 0;
    while i < buf.len()
        invariant
            i <= buf@.len(),
            copy@ == buf@.take(i as int),
        decreases buf@.len() - i,
    {
        copy.push(buf[i]);
        assert(buf@.take(i + 1) =~= buf@.take(i as int).push(buf@[i as int]));
        i = i + 1;
    }
    assert(buf@.take(buf@.len() as int) =~= buf@);
    match utf8_string(copy) {
        None => Err(NetError::InvalidData),
        Some(text) => {
            let v = to_chars(text.as_str());
            assert(v@.subrange(0, v@.len() as int) =~= v@);
            Ok(trim_chars(v.as_slice(), 0, v.len()))
        },
    }
}


/// `n` space characters.
pub open spec fn space_chars(n: nat) -> Seq<char> {
    Seq::new(n, |i: int| ' ')
}

/// The UTF-8 bytes of two texts joined are their bytes joined.
pub proof fn lemma_encode_utf8_concat(a: Seq<char>, b: Seq<char>)
    ensures
        encode_utf8(a + b) == encode_utf8(a) + encode_utf8(b),
    decreases a.len(),
{
    if a.len() == 0 {
        assert(a + b =~= b);
    } else {
        lemma_encode_utf8_concat(a.drop_first(), b);
        assert((a + b).drop_first() =~= a.drop_first() + b);
        assert((a + b)[0] == a[0]);
    }
}

/// Spaces are one byte each in UTF-8.
pub proof fn lemma_encode_spaces(n: nat)
    ensures
        encode_utf8(space_chars(n)) == spaces(n),
    decreases n,
{
    if n > 0 {
        lemma_encode_spaces((n - 1) as nat);
        assert(space_chars(n).drop_first() =~= space_chars((n - 1) as nat));
        assert(spaces(n) =~= seq![0x20u8] + spaces((n - 1) as nat));
        assert(0x20u32 & 0x7Fu32 == 0x20u32) by (bit_vector);
        assert((' ' as u32) == 0x20u32);
        assert(space_chars(n)[0] == ' ');
        assert(encode_utf8(space_chars(n)) == encode_scalar(' ' as u32) + encode_utf8(
            space_chars(n).drop_first(),
        ));
    } else {
        assert(space_chars(n) =~= Seq::<char>::empty());
        assert(spaces(n) =~= Seq::<u8>::empty());
    }
}

/// Spaces after a text go when its end is trimmed.
pub proof fn lemma_trim_end_spaces(s: Seq<char>, n: nat)
    ensures
        trim_end_spec(s + space_chars(n)) == trim_end_spec(s),
    decreases n,
{
    if n > 0 {
        assert((s + space_chars(n)).drop_last() =~= s + space_chars((n - 1) as nat));
        lemma_trim_end_spaces(s, (n - 1) as nat);
    } else {
        assert(s + space_chars(n) =~= s);
    }
}

/// A text of at most 32 bytes that `string32_bytes` sends is read back by
/// `string32_text` as the same text trimmed.
pub proof fn lemma_string32_roundtrip(s: Seq<char>)
    requires
        encode_utf8(s).len() <= 32,
    ensures
        valid_utf8(padded32(s)),
        trim_spec(decode_utf8(padded32(s))) == trim_spec(s),
{
    let k = encode_utf8(s).len();
    let m = (32 - k) as nat;
    let t = s + space_chars(m);
    lemma_encode_utf8_concat(s, space_chars(m));
    lemma_encode_spaces(m);
    assert(padded32(s) =~= encode_utf8(t));
    encode_utf8_valid_utf8(t);
    encode_utf8_decode_utf8(t);
    lemma_trim_end_spaces(s, m);
}


/// The scrambling key is the first four bytes of the greeting.
pub proof fn lemma_encode_key_is_magic_prefix()
    ensures
        encode_utf8(MAGIC_NUMBER@).take(4) == ENCODE_KEY@,
{
    reveal_strlit("Z53Yj@e29");
    let m = MAGIC_NUMBER;
    assert(m@ == "Z53Yj@e29"@);
    assert(vstd::string::is_ascii(m));
    vstd::string::is_ascii_spec_bytes(m);
    assert(encode_utf8(m@).take(4) =~= ENCODE_KEY@);
}

/// Scrambling keeps the length and turns each byte at place `i` into that
/// byte XOR the greeting's byte at place `i % 4`: every byte is scrambled,
/// with the first four bytes of `MAGIC_NUMBER` in turn.
pub proof fn lemma_encode_bytewise(b: Seq<u8>)
    ensures
        encoded(b).len() == b.len(),
        encode_utf8(MAGIC_NUMBER@).len() >= 4,
        forall|i: int|
            0 <= i < b.len() ==> #[trigger] encoded(b)[i] == b[i] ^ encode_utf8(MAGIC_NUMBER@)[i
                % 4],
{
    reveal_strlit("Z53Yj@e29");
    let m = MAGIC_NUMBER;
    assert(m@ == "Z53Yj@e29"@);
    assert(vstd::string::is_ascii(m));
    vstd::string::is_ascii_spec_bytes(m);
    let k = encode_utf8(m@);
    assert(k.len() == 9);
    assert(k[0] == 0x5Au8 && k[1] == 0x35u8 && k[2] == 0x33u8 && k[3] == 0x59u8);
    assert forall|i: int| 0 <= i < b.len() implies #[trigger] encoded(b)[i] == b[i] ^ k[i % 4] by {
        assert(ENCODE_KEY@[i % 4] == k[i % 4]);
    }
}

} // verus!
