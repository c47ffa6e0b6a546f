use vstd::prelude::*;

use crate::data::{decode, decode_word, lemma_decode_encode, lemma_encode_len, Data};
use crate::vm::Crash;

verus! {

/// Popping a word of the given size off the stack: the word (read from the last bytes)
/// and the stack without them; `None` when the stack holds fewer bytes than a word.
pub open spec fn pop_spec(size: Data, stack: Seq<u8>) -> Option<(Data, Seq<u8>)> {
    let w = size.width() as int;
    if stack.len() < w {
        None
    } else {
        Some(
            (
                decode(size, stack.subrange(stack.len() - w, stack.len() as int)),
                stack.subrange(0, stack.len() - w),
            ),
        )
    }
}

/// Pushing a word onto the stack appends its bytes.
pub open spec fn push_spec(stack: Seq<u8>, d: Data) -> Seq<u8> {
    stack + d.encode()
}

/// Reading a word at stack position `a`: `Ok(None)` when `a` lies beyond the end of the
/// stack, a crash when fewer bytes than a word follow `a`, else the word.
pub open spec fn read_spec(size: Data, stack: Seq<u8>, a: int) -> Result<Option<Data>, Crash> {
    if a > stack.len() {
        Ok(None)
    } else if stack.len() - a < size.width() {
        Err(Crash::ShortRead)
    } else {
        Ok(Some(decode(size, stack.subrange(a, stack.len() as int))))
    }
}

/// The stack cut or grown (with zero bytes) to `n` bytes.
pub open spec fn resize_spec(stack: Seq<u8>, n: int) -> Seq<u8> {
    if n <= stack.len() {
        stack.subrange(0, n)
    } else {
        stack + Seq::new((n - stack.len()) as nat, |i: int| 0u8)
    }
}

/// The stack cut to `n` bytes, unless it is shorter.
pub open spec fn truncate_spec(stack: Seq<u8>, n: int) -> Seq<u8> {
    if n <= stack.len() {
        stack.subrange(0, n)
    } else {
        stack
    }
}

/// Storing word `d` at stack position `a`: the stack is first grown with zero bytes so that
/// the word fits, then the word's bytes replace those at `a`. Crashes when the end of the word
/// overflows, or when the stack would have to grow beyond what a vector holds.
pub open spec fn store_spec(stack: Seq<u8>, a: int, d: Data) -> Result<Seq<u8>, Crash> {
    let end = a + d.width();
    if end > usize::MAX {
        Err(Crash::Overflow)
    } else if stack.len() < end && end > isize::MAX {
        Err(Crash::CapacityOverflow)
    } else {
        let grown = if stack.len() < end {
            resize_spec(stack, end)
        } else {
            stack
        };
        Ok(grown.subrange(0, a) + d.encode() + grown.subrange(end, grown.len() as int))
    }
}

/// `start + off`, when it is a valid position (`usize::checked_add_signed`).
pub open spec fn offset_spec(start: usize, off: int) -> Option<usize> {
    if 0 <= start + off <= usize::MAX {
        Some((start + off) as usize)
    } else {
        None
    }
}

/// Pops a word of the size of `size` off the stack.
pub fn pop_data(size: &Data, stack: &mut Vec<u8>) -> (r: Option<Data>)
    ensures
        match pop_spec(*size, old(stack)@) {
            None => r is None && final(stack)@ == old(stack)@,
            Some((d, rest)) => r == Some(d) && final(stack)@ == rest,
        },
{
    let w = size.size();
    let len = stack.len();
    if len < w {
        return None;
    }
    let start = len - w;
    let d = {
        let bytes = vstd::slice::slice_subrange(stack.as_slice(), start, len);
        decode_word(size, bytes)
    };
    stack.truncate(start);
    Some(d)
}

/// Pushes a word onto the stack.
pub fn push_data(stack: &mut Vec<u8>, d: Data)
    ensures
        final(stack)@ == push_spec(old(stack)@, d),
{
    let mut bytes = d.to_bytes();
    stack.append(&mut bytes);
}

/// Reads a word of the size of `size` at stack position `a`.
pub fn read_stack(size: &Data, stack: &Vec<u8>, a: usize) -> (r: Result<Option<Data>, Crash>)
    ensures
        r == read_spec(*size, stack@, a as int),
{
    let len = stack.len();
    if a > len {
        return Ok(None);
    }
    if len - a < size.size() {
        return Err(Crash::ShortRead);
    }
    let bytes = vstd::slice::slice_subrange(stack.as_slice(), a, len);
    Ok(Some(decode_word(size, bytes)))
}

/// Stores word `d` at stack position `a`.
pub fn store(stack: &mut Vec<u8>, a: usize, d: Data) -> (r: Result<(), Crash>)
    ensures
        match store_spec(old(stack)@, a as int, d) {
            Ok(s) => r is Ok && final(stack)@ == s,
            Err(c) => r == Err::<(), Crash>(c),
        },
{
    let w = d.size();
    let end = match a.checked_add(w) {
        Some(e) => e,
        None => {
            return Err(Crash::Overflow);
        },
    };
    if stack.len() < end {
        if end > isize::MAX as usize {
            return Err(Crash::CapacityOverflow);
        }
        stack.resize(end, 0);
        assert(stack@ =~= resize_spec(old(stack)@, end as int));
    }
    let ghost grown = stack@;
    let bytes = d.to_bytes();
    let mut i: usize = 0;
    while i < w
        invariant
            w == d.width(),
            bytes@ == d.encode(),
            bytes@.len() == w,
            end == a + w,
            grown.len() >= end,
            stack@.len() == grown.len(),
            i <= w,
            forall|j: int| 0 <= j < a ==> stack@[j] == grown[j],
            forall|j: int| end <= j < grown.len() ==> stack@[j] == grown[j],
            forall|j: int| a <= j < a + i ==> stack@[j] == bytes@[j - a],
        decreases w - i,
    {
        stack.set(a + i, bytes[i]);
        i = i + 1;
    }
    assert(stack@ =~= grown.subrange(0, a as int) + d.encode() + grown.subrange(end as int, grown.len() as int));
    Ok(())
}

/// `start + off`, when it is a valid position.
pub fn offsetted(start: usize, off: isize) -> (r: Option<usize>)
    ensures
        r == offset_spec(start, off as int),
{
    start.checked_add_signed(off)
}

/// Popping what was pushed gives back the word and the stack before the push.
pub proof fn lemma_push_pop(stack: Seq<u8>, d: Data)
    ensures
        pop_spec(d, push_spec(stack, d)) == Some((d, stack)),
{
    let s = push_spec(stack, d);
    lemma_encode_len(d);
    let w = d.width() as int;
    assert(s.subrange(s.len() - w, s.len() as int) =~= d.encode() + Seq::<u8>::empty());
    lemma_decode_encode(d, Seq::<u8>::empty());
    assert(s.subrange(0, s.len() - w) =~= stack);
}

/// A word stored at a position is read back from that position: what is written is what
/// is read.
pub proof fn lemma_store_read(stack: Seq<u8>, a: int, d: Data)
    requires
        0 <= a,
        store_spec(stack, a, d) is Ok,
    ensures
        read_spec(d, store_spec(stack, a, d).unwrap(), a) == Ok::<Option<Data>, Crash>(Some(d)),
{
    let s = store_spec(stack, a, d).unwrap();
    lemma_encode_len(d);
    let end = a + d.width();
    let grown = if stack.len() < end {
        resize_spec(stack, end)
    } else {
        stack
    };
    assert(grown.len() >= end);
    let rest = grown.subrange(end, grown.len() as int);
    assert(s.subrange(a, s.len() as int) =~= d.encode() + rest);
    lemma_decode_encode(d, rest);
}

/// Storing a word leaves every byte before it and every byte after it as it was.
pub proof fn lemma_store_keeps_others(stack: Seq<u8>, a: int, d: Data, j: int)
    requires
        0 <= a,
        store_spec(stack, a, d) is Ok,
        0 <= j < stack.len(),
        j < a || j >= a + d.width(),
    ensures
        store_spec(stack, a, d).unwrap()[j] == stack[j],
{
    lemma_encode_len(d);
}

} // verus!
