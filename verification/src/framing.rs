use vstd::prelude::*;

verus! {

/// The number that four bytes give, least significant first.
pub open spec fn le_value(b: Seq<u8>) -> int {
    b[0] as int + b[1] as int * 256 + b[2] as int * 65536 + b[3] as int * 16777216
}

/// The four bytes of `v`, least significant first.
pub open spec fn le_bytes(v: u32) -> Seq<u8> {
    seq![
        (v & 0xff) as u8,
        ((v >> 8u32) & 0xff) as u8,
        ((v >> 16u32) & 0xff) as u8,
        ((v >> 24u32) & 0xff) as u8,
    ]
}

proof fn lemma_le_bytes_value(v: u32)
    ensures
        le_value(le_bytes(v)) == v,
{
    let b0 = v & 0xff;
    let b1 = (v >> 8u32) & 0xff;
    let b2 = (v >> 16u32) & 0xff;
    let b3 = (v >> 24u32) & 0xff;
    assert(v == b0 + b1 * 256 + b2 * 65536 + b3 * 16777216) by (bit_vector)
        requires
            b0 == v & 0xff,
            b1 == (v >> 8u32) & 0xff,
            b2 == (v >> 16u32) & 0xff,
            b3 == (v >> 24u32) & 0xff,
    ;
    assert(b0 < 256 && b1 < 256 && b2 < 256 && b3 < 256) by (bit_vector)
        requires
            b0 == v & 0xff,
            b1 == (v >> 8u32) & 0xff,
            b2 == (v >> 16u32) & 0xff,
            b3 == (v >> 24u32) & 0xff,
    ;
}

/// The length prefix of a frame whose payload has `len` bytes: the length
/// as four little-endian bytes, cut to 32 bits as the sender casts it.
pub fn frame_header(len: usize) -> (r: [u8; 4])
    ensures
        r@ == le_bytes(len as u32),
{
    let v: u32 = #[verifier::truncate] (len as u32);
    [
        (v & 0xff) as u8,
        ((v >> 8u32) & 0xff) as u8,
        ((v >> 16u32) & 0xff) as u8,
        ((v >> 24u32) & 0xff) as u8,
    ]
}

/// The payload length that a frame's prefix gives.
pub fn frame_len(header: [u8; 4]) -> (r: u32)
    ensures
        r == le_value(header@),
{
    let b0 = header[0] as u32;
    let b1 = header[1] as u32;
    let b2 = header[2] as u32;
    let b3 = header[3] as u32;
    let r = b0 | (b1 << 8u32) | (b2 << 16u32) | (b3 << 24u32);
    assert(r == b0 + b1 * 256 + b2 * 65536 + b3 * 16777216) by (bit_vector)
        requires
            b0 < 256,
            b1 < 256,
            b2 < 256,
            b3 < 256,
            r == b0 | (b1 << 8u32) | (b2 << 16u32) | (b3 << 24u32),
    ;
    r
}

/// A frame on the wire: the length prefix, then the payload.
pub open spec fn frame_spec(payload: Seq<u8>) -> Seq<u8> {
    le_bytes(payload.len() as u32) + payload
}

/// The bytes that carry `payload` over the connection.
pub fn encode_frame(payload: &Vec<u8>) -> (r: Vec<u8>)
    ensures
        r@ == frame_spec(payload@),
{
    let header = frame_header(payload.len());
    let mut r: Vec<u8> = Vec::new();
    r.push(header[0]);
    r.push(header[1]);
    r.push(header[2]);
    r.push(header[3]);
    let mut k: usize = 0;
    while k < payload.len()
        invariant
            k <= payload@.len(),
            header@ == le_bytes(payload@.len() as u32),
            r@ == header@ + payload@.take(k as int),
        decreases payload@.len() - k,
    {
        r.push(payload[k]);
        proof {
            assert(payload@.take(k + 1) =~= payload@.take(k as int).push(payload@[k as int]));
            assert(header@ + payload@.take(k + 1) =~= (header@ + payload@.take(k as int)).push(payload@[k as int]));
        }
        k = k + 1;
    }
    proof {
        assert(payload@.take(k as int) =~= payload@);
        assert(header@ =~= le_bytes(payload@.len() as u32));
    }
    r
}

/// The first frame of the bytes received so far, if they hold a whole one:
/// `Some((payload, used))` where the prefix and `payload` take the first
/// `used` bytes.
pub open spec fn first_frame(bytes: Seq<u8>) -> Option<(Seq<u8>, int)> {
    if bytes.len() < 4 {
        None
    } else {
        let n = le_value(bytes.take(4));
        if bytes.len() < 4 + n {
            None
        } else {
            Some((bytes.subrange(4, 4 + n), 4 + n))
        }
    }
}

/// Takes the first whole frame out of the bytes received so far; the bytes
/// after it stay for the next frame.
pub fn take_frame(buffer: &mut Vec<u8>) -> (r: Option<Vec<u8>>)
    ensures
        match first_frame(old(buffer)@) {
            None => r is None && final(buffer)@ == old(buffer)@,
            Some((p, used)) => r matches Some(v) && v@ == p && final(buffer)@ == old(buffer)@.skip(used),
        },
{
    if buffer.len() < 4 {
        return None;
    }
    let n = frame_len([buffer[0], buffer[1], buffer[2], buffer[3]]) as usize;
    proof {
        assert(buffer@.take(4) =~= seq![buffer@[0], buffer@[1], buffer@[2], buffer@[3]]);
    }
    if buffer.len() - 4 < n {
        return None;
    }
    let blen = buffer.len();
    let mut payload: Vec<u8> = Vec::new();
    let mut k: usize = 0;
    while k < n
        invariant
            blen == buffer@.len(),
            k <= n,
            4 + n <= buffer@.len(),
            buffer@ == old(buffer)@,
            payload@ == buffer@.subrange(4, 4 + k),
        decreases n - k,
    {
        payload.push(buffer[4 + k]);
        proof {
            assert(buffer@.subrange(4, 4 + k + 1) =~= buffer@.subrange(4, 4 + k).push(buffer@[4 + k]));
        }
        k = k + 1;
    }
    let mut rest: Vec<u8> = Vec::new();
    let mut j: usize = 4 + n;
    while j < buffer.len()
        invariant
            4 + n <= j <= buffer@.len(),
            buffer@ == old(buffer)@,
            rest@ == buffer@.subrange(4 + n, j as int),
        decreases buffer@.len() - j,
    {
        rest.push(buffer[j]);
        proof {
            assert(buffer@.subrange(4 + n, j + 1) =~= buffer@.subrange(4 + n, j as int).push(buffer@[j as int]));
        }
        j = j + 1;
    }
    proof {
        assert(rest@ =~= old(buffer)@.skip(4 + n));
    }
    *buffer = rest;
    Some(payload)
}

/// Reading back what was framed gives the payload and the bytes after the
/// frame, for every payload whose length fits the 32-bit prefix.
pub proof fn lemma_frame_round_trip(payload: Seq<u8>, rest: Seq<u8>)
    requires
        payload.len() <= u32::MAX,
    ensures
        first_frame(frame_spec(payload) + rest) == Some((payload, 4 + payload.len() as int)),
        (frame_spec(payload) + rest).skip(4 + payload.len() as int) == rest,
{
    let bytes = frame_spec(payload) + rest;
    lemma_le_bytes_value(payload.len() as u32);
    assert(bytes.take(4) =~= le_bytes(payload.len() as u32));
    assert(bytes.subrange(4, 4 + payload.len() as int) =~= payload);
    assert(bytes.skip(4 + payload.len() as int) =~= rest);
}

} // verus!
