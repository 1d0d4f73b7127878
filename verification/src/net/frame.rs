use vstd::prelude::*;

verus! {

/// The bit of the first header word that marks a response; the other 31
/// bits carry the request id.
pub const RESPONSE_FLAG: u32 = 0x8000_0000;

/// The 32-bit little-endian number stored at `s[i..i + 4]`.
pub open spec fn word_at(s: Seq<u8>, i: int) -> int {
    s[i] + 256 * s[i + 1] + 65536 * s[i + 2] + 16777216 * s[i + 3]
}

/// The four little-endian bytes of `x`.
pub open spec fn word_bytes(x: u32) -> Seq<u8> {
    seq![(x % 256) as u8, ((x / 256) % 256) as u8, ((x / 65536) % 256) as u8, (x / 16777216) as u8]
}

/// The first header word of a response to request `id`: `id` with the
/// response bit set.
pub open spec fn reply_word(id: u32) -> u32 {
    ((id % 0x8000_0000) + 0x8000_0000) as u32
}

/// A datagram long enough to carry a header word.
pub open spec fn has_header(s: Seq<u8>) -> bool {
    s.len() >= 4
}

/// `s` is a request: its first word has the response bit clear and a
/// second word, the request type, follows.
pub open spec fn is_request_frame(s: Seq<u8>) -> bool {
    &&& has_header(s)
    &&& word_at(s, 0) < 0x8000_0000
    &&& s.len() >= 8
}

/// `s` is a response: its first word has the response bit set.
pub open spec fn is_response_frame(s: Seq<u8>) -> bool {
    &&& has_header(s)
    &&& word_at(s, 0) >= 0x8000_0000
}

/// The request id carried by a frame: its first word without the response bit.
pub open spec fn frame_id(s: Seq<u8>) -> int {
    word_at(s, 0) % 0x8000_0000
}

/// A received datagram, as far as the request/response protocol reads it.
pub enum Datagram {
    /// Too short to be a request or a response; it is dropped.
    Ignored,
    /// A request `id` of type `type_id`, with the serialized request.
    Request { id: u32, type_id: u32, payload: Vec<u8> },
    /// The response to request `id`, with the serialized response.
    Response { id: u32, payload: Vec<u8> },
}

/// Reads a 32-bit little-endian word at `at`.
fn read_word(buf: &[u8], at: usize) -> (w: u32)
    requires
        at + 4 <= buf@.len(),
    ensures
        w == word_at(buf@, at as int),
{
    let b0 = buf[at] as u32;
    let b1 = buf[at + 1] as u32;
    let b2 = buf[at + 2] as u32;
    let b3 = buf[at + 3] as u32;
    b0 + 256 * b1 + 65536 * b2 + 16777216 * b3
}

/// Appends the four little-endian bytes of `x` to `out`.
fn push_word(out: &mut Vec<u8>, x: u32)
    ensures
        final(out)@ == old(out)@ + word_bytes(x),
{
    out.push((x % 256) as u8);
    out.push(((x / 256) % 256) as u8);
    out.push(((x / 65536) % 256) as u8);
    out.push((x / 16777216) as u8);
    assert(final(out)@ =~= old(out)@ + word_bytes(x));
}

/// The header of request `id` of type `type_id`; the serialized request follows it.
pub fn request_header(id: u32, type_id: u32) -> (h: Vec<u8>)
    ensures
        h@ == word_bytes(id) + word_bytes(type_id),
{
    let mut h: Vec<u8> = Vec::new();
    push_word(&mut h, id);
    push_word(&mut h, type_id);
    assert(h@ =~= word_bytes(id) + word_bytes(type_id));
    h
}

/// The header of the response to request `id`; the serialized response follows it.
pub fn response_header(id: u32) -> (h: Vec<u8>)
    ensures
        h@ == word_bytes(reply_word(id)),
{
    let w = id | RESPONSE_FLAG;
    assert(id | 0x8000_0000u32 == ((id % 0x8000_0000) + 0x8000_0000) as u32) by (bit_vector);
    let mut h: Vec<u8> = Vec::new();
    push_word(&mut h, w);
    assert(h@ =~= word_bytes(reply_word(id)));
    h
}

/// Reads the first `size` bytes of `buf` as a request or a response.
pub fn parse_datagram(buf: &[u8], size: usize) -> (d: Datagram)
    requires
        size <= buf@.len(),
    ensures
        ({
            let s = buf@.take(size as int);
            match d {
                Datagram::Ignored => !is_request_frame(s) && !is_response_frame(s),
                Datagram::Request { id, type_id, payload } => {
                    &&& is_request_frame(s)
                    &&& id == frame_id(s)
                    &&& type_id == word_at(s, 4)
                    &&& payload@ == s.skip(8)
                },
                Datagram::Response { id, payload } => {
                    &&& is_response_frame(s)
                    &&& id == frame_id(s)
                    &&& payload@ == s.skip(4)
                },
            }
        }),
{
    let ghost s = buf@.take(size as int);
    if size < 4 {
        return Datagram::Ignored;
    }
    let x = read_word(buf, 0);
    assert(word_at(s, 0) == word_at(buf@, 0));
    if x < RESPONSE_FLAG {
        if size < 8 {
            return Datagram::Ignored;
        }
        let type_id = read_word(buf, 4);
        assert(word_at(s, 4) == word_at(buf@, 4));
        let payload = copy_range(buf, 8, size);
        assert(payload@ =~= s.skip(8));
        Datagram::Request { id: x, type_id, payload }
    } else {
        let payload = copy_range(buf, 4, size);
        assert(payload@ =~= s.skip(4));
        Datagram::Response { id: x - RESPONSE_FLAG, payload }
    }
}

/// A copy of `buf[from..to]`.
fn copy_range(buf: &[u8], from: usize, to: usize) -> (v: Vec<u8>)
    requires
        from <= to <= buf@.len(),
    ensures
        v@ == buf@.subrange(from as int, to as int),
{
    let mut v: Vec<u8> = Vec::new();
    let mut i = from;
    while i < to
        invariant
            from <= i <= to <= buf@.len(),
            v@ == buf@.subrange(from as int, i as int),
        decreases to - i,
    {
        v.push(buf[i]);
        i = i + 1;
        assert(v@ =~= buf@.subrange(from as int, i as int));
    }
    v
}

/// The four bytes of a word read back give the word.
pub proof fn lemma_word_roundtrip(x: u32)
    ensures
        word_at(word_bytes(x), 0) == x,
{
}

/// Words are little-endian: the first byte is the least significant and the
/// fourth the most significant.
pub proof fn lemma_words_are_little_endian(s: Seq<u8>)
    requires
        s.len() >= 4,
    ensures
        word_at(s, 0) % 256 == s[0],
        word_at(s, 0) / 16777216 == s[3],
        0 <= word_at(s, 0) <= u32::MAX,
        forall|x: u32| #[trigger] word_bytes(x)[0] == x % 256 && word_bytes(x)[3] == x / 16777216,
{
}

/// The first word of a response has the response bit set and carries the
/// request id in its other 31 bits.
pub proof fn lemma_reply_word_marks_response(id: u32)
    ensures
        reply_word(id) >= 0x8000_0000,
        reply_word(id) % 0x8000_0000 == id % 0x8000_0000,
        id < 0x8000_0000 ==> reply_word(id) == id + 0x8000_0000,
{
}

/// A request header followed by a serialized request reads back as that
/// request, provided the id fits in 31 bits.
pub proof fn lemma_request_roundtrip(id: u32, type_id: u32, payload: Seq<u8>)
    requires
        id < 0x8000_0000,
    ensures
        ({
            let s = word_bytes(id) + word_bytes(type_id) + payload;
            &&& is_request_frame(s)
            &&& !is_response_frame(s)
            &&& frame_id(s) == id
            &&& word_at(s, 4) == type_id
            &&& s.skip(8) == payload
        }),
{
    let s = word_bytes(id) + word_bytes(type_id) + payload;
    lemma_word_roundtrip(id);
    lemma_word_roundtrip(type_id);
    assert(word_at(s, 0) == word_at(word_bytes(id), 0));
    assert(word_at(s, 4) == word_at(word_bytes(type_id), 0));
    assert(s.skip(8) =~= payload);
}

/// A response header for request `id` followed by a serialized response
/// reads back as the response to `id` (to its low 31 bits, which is all a
/// request id carries).
pub proof fn lemma_response_roundtrip(id: u32, payload: Seq<u8>)
    ensures
        ({
            let s = word_bytes(reply_word(id)) + payload;
            &&& is_response_frame(s)
            &&& !is_request_frame(s)
            &&& frame_id(s) == id % 0x8000_0000
            &&& s.skip(4) == payload
        }),
{
    let s = word_bytes(reply_word(id)) + payload;
    lemma_word_roundtrip(reply_word(id));
    assert(word_at(s, 0) == word_at(word_bytes(reply_word(id)), 0));
    assert(s.skip(4) =~= payload);
}

} // verus!
