//! Encoding and decoding of the primitive fields.

pub mod boolean;
pub mod parameters;
pub mod string;
pub mod varint;

use crate::error::{Error, ErrorKind};
use vstd::prelude::*;

verus! {

/// What a decoder yields in specifications: the value read from the front of
/// the input and the number of bytes it took, or the kind of failure.
pub type Parsed<T> = Result<(T, nat), ErrorKind>;

/// The mathematical content of a decoder's result.
pub open spec fn decoded<T: View>(r: Result<(T, usize), Error>) -> Parsed<T::V> {
    match r {
        Ok((value, consumed)) => Ok((value@, consumed as nat)),
        Err(e) => Err(e@),
    }
}

/// The result `r` of a decoder that ran behind `n` bytes that were taken
/// before it, counted from where those began.
pub open spec fn spec_advance<T>(r: Parsed<T>, n: nat) -> Parsed<T> {
    match r {
        Ok((value, m)) => Ok((value, n + m)),
        Err(e) => Err(e),
    }
}

/// The number of bytes that a decoder took; none where it failed.
pub open spec fn spec_taken<T>(r: Parsed<T>) -> nat {
    match r {
        Ok((_, n)) => n,
        Err(_) => 0,
    }
}

/// The value that a decoder read, where it read one.
pub open spec fn spec_read<T>(r: Parsed<T>) -> T
    recommends
        r is Ok,
{
    (r->Ok_0).0
}

/// The failure of a decoder, where it failed.
pub open spec fn spec_failure<T>(r: Parsed<T>) -> ErrorKind
    recommends
        r is Err,
{
    r->Err_0
}

/// The text of an optional string.
pub open spec fn spec_text(s: Option<String>) -> Option<Seq<char>> {
    match s {
        Some(s) => Some(s@),
        None => None,
    }
}

/// The law of a decoder that looks at no byte beyond those it takes, stated
/// of its result `whole` on some input and its result `part` on the first `k`
/// bytes of that input: where `whole` is a success, `part` is the same success
/// if the `k` bytes hold all that was taken, and otherwise a failure that only
/// says that more input is needed.
pub open spec fn spec_reads_only_its_bytes<T>(whole: Parsed<T>, part: Parsed<T>, k: int) -> bool {
    whole matches Ok((_, n)) ==> if n <= k {
        part == whole
    } else {
        part matches Err(e) && e.is_incomplete()
    }
}

/// The mathematical content of an encoder's result: the number of bytes
/// written, or the kind of failure.
pub open spec fn encoded(r: Result<usize, Error>) -> Result<nat, ErrorKind> {
    match r {
        Ok(written) => Ok(written as nat),
        Err(e) => Err(e@),
    }
}

/// What an encoder does to the vector it writes to: the bytes that it
/// appends and, where it stops early, the reason.
pub struct Output {
    pub bytes: Seq<u8>,
    pub error: Option<ErrorKind>,
}

impl Output {
    /// Appending `bytes` to a vector that holds `len` bytes: refused as
    /// `BufferTooShort` where the vector cannot grow that far.
    pub open spec fn put(len: nat, bytes: Seq<u8>) -> Output {
        if len + bytes.len() <= isize::MAX {
            Output { bytes, error: None }
        } else {
            Output { bytes: Seq::empty(), error: Some(ErrorKind::BufferTooShort) }
        }
    }

    /// Stopping with `e` before anything is written.
    pub open spec fn fail(e: ErrorKind) -> Output {
        Output { bytes: Seq::empty(), error: Some(e) }
    }

    /// `self` followed by `next`, which is skipped where `self` failed.
    pub open spec fn followed_by(self, next: Output) -> Output {
        if self.error is Some {
            self
        } else {
            Output { bytes: self.bytes + next.bytes, error: next.error }
        }
    }

    /// What the encoder returns: the number of bytes written, or the error.
    pub open spec fn result(self) -> Result<nat, ErrorKind> {
        match self.error {
            None => Ok(self.bytes.len()),
            Some(e) => Err(e),
        }
    }

    /// True where an encoder that started from `before` and returned `r` left
    /// `after` as `self` says.
    pub open spec fn describes(
        self,
        before: Seq<u8>,
        after: Seq<u8>,
        r: Result<usize, Error>,
    ) -> bool {
        after =~= before + self.bytes && encoded(r) == self.result()
    }
}

/// The count of a later step of an encoder added to the count `l` of the
/// steps before it, where the later step returned `r`.
pub(crate) fn also(
    l: usize,
    r: Result<usize, Error>,
    Ghost(first): Ghost<Output>,
    Ghost(second): Ghost<Output>,
    Ghost(before): Ghost<Seq<u8>>,
    Ghost(mid): Ghost<Seq<u8>>,
    after: &Vec<u8>,
) -> (out: Result<usize, Error>)
    requires
        first.describes(before, mid, Ok(l)),
        second.describes(mid, after@, r),
    ensures
        first.followed_by(second).describes(before, after@, out),
        out matches Ok(n) ==> first.followed_by(second).error is None && n == first.followed_by(
            second,
        ).bytes.len() && after@ == before + first.followed_by(second).bytes,
{
    proof {
        assert((before + first.bytes) + second.bytes =~= before + (first.bytes + second.bytes));
    }
    match r {
        Ok(n) => {
            let size = after.len();
            assert(size == before.len() + l + n);
            Ok(l + n)
        },
        Err(e) => Err(e),
    }
}

/// Input that is made of `head`, `next` and `tail` is `head` followed by the
/// rest, and the rest is what is left when `head` is taken off.
pub proof fn lemma_split_input(head: Seq<u8>, next: Seq<u8>, tail: Seq<u8>)
    ensures
        (head + next) + tail == head + (next + tail),
        (head + (next + tail)).skip(head.len() as int) == next + tail,
{
    assert((head + next) + tail =~= head + (next + tail));
    assert((head + (next + tail)).skip(head.len() as int) =~= next + tail);
}

/// An encoder that did not fail did not fail in its first part, and appended
/// the bytes of both parts.
pub proof fn lemma_followed_by(first: Output, second: Output)
    requires
        first.followed_by(second).error is None,
    ensures
        first.error is None,
        second.error is None,
        first.followed_by(second).bytes == first.bytes + second.bytes,
{
}

} // verus!
