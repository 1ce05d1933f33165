//! Byte buffers: resizing, overwriting a range, reading a window.

use vstd::prelude::*;

verus! {

/// `data` cut or zero-filled to `len` bytes.
pub open spec fn resized(data: Seq<u8>, len: nat) -> Seq<u8> {
    Seq::new(
        len,
        |i: int|
            if i < data.len() {
                data[i]
            } else {
                0
            },
    )
}

/// `data` with `bytes` at `offset`, grown and zero-filled as far as needed.
pub open spec fn overwritten(data: Seq<u8>, offset: nat, bytes: Seq<u8>) -> Seq<u8> {
    let end = offset + bytes.len();
    Seq::new(
        if data.len() < end {
            end
        } else {
            data.len()
        },
        |i: int|
            if offset <= i < end {
                bytes[i - offset]
            } else if i < data.len() {
                data[i]
            } else {
                0
            },
    )
}

/// The number of bytes of `data` from `offset` on that fit into `room`.
pub open spec fn window_len(data: Seq<u8>, offset: nat, room: nat) -> nat {
    if offset >= data.len() {
        0
    } else if data.len() - offset < room {
        (data.len() - offset) as nat
    } else {
        room
    }
}

/// Cuts or zero-fills `data` to `len` bytes.
pub fn resize(data: &mut Vec<u8>, len: usize)
    requires
        len <= isize::MAX,
    ensures
        final(data)@ == resized(old(data)@, len as nat),
{
    let ghost before = data@;
    data.resize(len, 0);
    proof {
        if len > before.len() {
            assert forall|i: int| 0 <= i < len implies data@[i] == resized(before, len as nat)[i] by {
                if i < before.len() {
                    assert(data@.subrange(0, before.len() as int)[i] == before[i]);
                }
            }
        }
        assert(data@ =~= resized(before, len as nat));
    }
}

/// Puts `bytes` into `data` at `offset`, growing and zero-filling it as far
/// as needed.
pub fn overwrite(data: &mut Vec<u8>, offset: usize, bytes: &[u8])
    requires
        offset + bytes@.len() <= isize::MAX,
    ensures
        final(data)@ == overwritten(old(data)@, offset as nat, bytes@),
{
    let ghost before = data@;
    let end: usize = offset + bytes.len();
    if data.len() < end {
        resize(data, end);
    }
    let ghost grown = data@;
    let n: usize = bytes.len();
    for i in 0..n
        invariant
            n == bytes@.len(),
            offset + n == end,
            end <= grown.len(),
            data@.len() == grown.len(),
            forall|j: int|
                0 <= j < grown.len() ==> #[trigger] data@[j] == (if offset <= j < offset + i {
                    bytes@[j - offset]
                } else {
                    grown[j]
                }),
    {
        data[offset + i] = bytes[i];
    }
    proof {
        assert(data@ =~= overwritten(before, offset as nat, bytes@));
    }
}

/// Copies the bytes of `data` from `offset` on to the front of `buffer`, as
/// many as there are and fit, and returns their number.
pub fn copy_window(data: &Vec<u8>, offset: usize, buffer: &mut [u8]) -> (count: usize)
    ensures
        count == window_len(data@, offset as nat, old(buffer)@.len()),
        final(buffer)@.len() == old(buffer)@.len(),
        forall|i: int|
            0 <= i < old(buffer)@.len() ==> #[trigger] final(buffer)@[i] == (if i < count {
                data@[offset + i]
            } else {
                old(buffer)@[i]
            }),
{
    if offset >= data.len() {
        return 0;
    }
    let rest: usize = data.len() - offset;
    let room: usize = buffer.len();
    let count: usize = if rest < room {
        rest
    } else {
        room
    };
    let ghost before = buffer@;
    for i in 0..count
        invariant
            offset + count <= data.len(),
            count <= before.len(),
            buffer@.len() == before.len(),
            forall|j: int|
                0 <= j < before.len() ==> #[trigger] buffer@[j] == (if j < i {
                    data@[offset + j]
                } else {
                    before[j]
                }),
    {
        buffer[i] = data[offset + i];
    }
    count
}

/// An overwrite puts the bytes at their offset, keeps what was before and
/// behind them, fills a gap with zeros, and makes the data exactly as long as
/// the last byte asks: no shorter than it was, and no longer than it must be.
pub proof fn law_overwrite(data: Seq<u8>, offset: nat, bytes: Seq<u8>)
    ensures
        ({
            let after = overwritten(data, offset, bytes);
            let end = offset + bytes.len();
            &&& end <= data.len() ==> after.len() == data.len()
            &&& end > data.len() ==> after.len() == end
            &&& after.subrange(offset as int, end as int) == bytes
            &&& offset <= data.len() ==> after.take(offset as int) == data.take(offset as int)
            &&& offset > data.len() ==> {
                &&& after.take(data.len() as int) == data
                &&& forall|i: int| data.len() <= i < offset ==> #[trigger] after[i] == 0
            }
            &&& end <= data.len() ==> after.skip(end as int) == data.skip(end as int)
        }),
{
    let after = overwritten(data, offset, bytes);
    let end = offset + bytes.len();
    assert(after.subrange(offset as int, end as int) =~= bytes);
    if offset <= data.len() {
        assert(after.take(offset as int) =~= data.take(offset as int));
    } else {
        assert(after.take(data.len() as int) =~= data);
    }
    if end <= data.len() {
        assert(after.skip(end as int) =~= data.skip(end as int));
    }
}

/// A resize keeps the front that fits and fills the rest with zeros.
pub proof fn law_resize_of_bytes(data: Seq<u8>, len: nat)
    ensures
        len <= data.len() ==> resized(data, len) == data.take(len as int),
        len > data.len() ==> resized(data, len) == data + Seq::new(
            (len - data.len()) as nat,
            |i: int| 0u8,
        ),
{
    if len <= data.len() {
        assert(resized(data, len) =~= data.take(len as int));
    } else {
        assert(resized(data, len) =~= data + Seq::new((len - data.len()) as nat, |i: int| 0u8));
    }
}

/// A window holds all the bytes that are left, as far as there is room: it
/// ends where the data or the room does, and nothing is behind the end.
pub proof fn law_window(data: Seq<u8>, offset: nat, room: nat)
    ensures
        offset >= data.len() ==> window_len(data, offset, room) == 0,
        offset <= data.len() ==> {
            &&& offset + window_len(data, offset, room) <= data.len()
            &&& window_len(data, offset, room) <= room
            &&& offset + window_len(data, offset, room) == data.len() || window_len(
                data,
                offset,
                room,
            ) == room
        },
{
}

} // verus!
