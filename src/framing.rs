use vstd::prelude::*;

verus! {

/// The number that four bytes write in big-endian order.
pub open spec fn be_u32(b: Seq<u8>) -> nat
    recommends
        b.len() >= 4,
{
    b[0] as nat * 16777216 + b[1] as nat * 65536 + b[2] as nat * 256 + b[3] as nat
}

/// `n` as four bytes in big-endian order.
pub open spec fn be_bytes(n: u32) -> Seq<u8> {
    seq![(n / 16777216) as u8, ((n / 65536) % 256) as u8, ((n / 256) % 256) as u8, (n % 256) as u8]
}

/// A frame: the payload's length as four big-endian bytes, then the payload.
pub open spec fn framed(payload: Seq<u8>) -> Seq<u8>
    recommends
        payload.len() <= u32::MAX,
{
    be_bytes(payload.len() as u32) + payload
}

proof fn lemma_be_round_trip(n: u32)
    ensures
        be_u32(be_bytes(n)) == n,
{
    assert(n == (n / 16777216) * 16777216 + ((n / 65536) % 256) * 65536 + ((n / 256) % 256) * 256
        + n % 256) by (bit_vector);
    assert(n / 16777216 < 256) by (bit_vector);
}

/// The frame of `payload`; `None` when its length does not fit in four bytes.
pub fn frame_message(payload: &Vec<u8>) -> (r: Option<Vec<u8>>)
    ensures
        match r {
            Some(f) => payload@.len() <= u32::MAX && f@ == framed(payload@),
            None => payload@.len() > u32::MAX,
        },
{
    if payload.len() > 4294967295 {
        return None;
    }
    let n = payload.len() as u32;
    let mut out: Vec<u8> = Vec::new();
    out.push((n / 16777216) as u8);
    out.push(((n / 65536) % 256) as u8);
    out.push(((n / 256) % 256) as u8);
    out.push((n % 256) as u8);
    let mut i: usize = 0;
    while i < payload.len()
        invariant
            i <= payload@.len(),
            out@ == be_bytes(n) + payload@.subrange(0, i as int),
        decreases payload@.len() - i,
    {
        out.push(payload[i]);
        i = i + 1;
        assert(out@ =~= be_bytes(n) + payload@.subrange(0, i as int));
    }
    assert(payload@.subrange(0, i as int) =~= payload@);
    Some(out)
}

/// Takes the first whole frame off the front of `buffer` and returns its payload.
/// When `buffer` does not yet hold a whole frame it is left as it is.
pub fn take_frame(buffer: &mut Vec<u8>) -> (r: Option<Vec<u8>>)
    ensures
        match r {
            Some(p) => {
                &&& old(buffer)@.len() >= 4
                &&& old(buffer)@.len() >= 4 + be_u32(old(buffer)@)
                &&& p@ == old(buffer)@.subrange(4, 4 + be_u32(old(buffer)@) as int)
                &&& final(buffer)@ == old(buffer)@.subrange(
                    4 + be_u32(old(buffer)@) as int,
                    old(buffer)@.len() as int,
                )
            },
            None => {
                &&& old(buffer)@.len() < 4 || old(buffer)@.len() < 4 + be_u32(old(buffer)@)
                &&& final(buffer)@ == old(buffer)@
            },
        },
{
    if buffer.len() < 4 {
        return None;
    }
    let n: usize = buffer[0] as usize * 16777216 + buffer[1] as usize * 65536 + buffer[2] as usize
        * 256 + buffer[3] as usize;
    if buffer.len() - 4 < n {
        return None;
    }
    let ghost b = buffer@;
    let mut payload: Vec<u8> = Vec::with_capacity(n);
    let end = 4 + n;
    let mut i: usize = 4;
    while i < end
        invariant
            buffer@ == b,
            end == 4 + n,
            4 <= i <= 4 + n <= b.len(),
            payload@ == b.subrange(4, i as int),
        decreases end - i,
    {
        payload.push(buffer[i]);
        i = i + 1;
        assert(payload@ =~= b.subrange(4, i as int));
    }
    let mut rest: Vec<u8> = Vec::with_capacity(buffer.len() - i);
    let mut j: usize = i;
    while j < buffer.len()
        invariant
            buffer@ == b,
            4 + n <= j <= b.len(),
            i == 4 + n,
            rest@ == b.subrange(4 + n, j as int),
        decreases b.len() - j,
    {
        rest.push(buffer[j]);
        j = j + 1;
        assert(rest@ =~= b.subrange(4 + n, j as int));
    }
    *buffer = rest;
    Some(payload)
}

/// A frame read back yields the payload it was made of, and leaves whatever
/// followed it.
pub proof fn frame_round_trip(payload: Seq<u8>, rest: Seq<u8>)
    requires
        payload.len() <= u32::MAX,
    ensures
        ({
            let buf = framed(payload) + rest;
            &&& buf.len() >= 4
            &&& be_u32(buf) == payload.len()
            &&& buf.subrange(4, 4 + payload.len() as int) == payload
            &&& buf.subrange(4 + payload.len() as int, buf.len() as int) == rest
        }),
{
    let buf = framed(payload) + rest;
    lemma_be_round_trip(payload.len() as u32);
    assert(be_u32(buf) == be_u32(be_bytes(payload.len() as u32)));
    assert(buf.subrange(4, 4 + payload.len() as int) =~= payload);
    assert(buf.subrange(4 + payload.len() as int, buf.len() as int) =~= rest);
}

} // verus!
