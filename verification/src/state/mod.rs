//! State as stored by the bootloader, and its on-flash codec.
//!
//! The state is a compact tag-plus-fields encoding: every variant is
//! prefixed with a stable small integer tag, slots are single bytes, and
//! step counters are variable-length unsigned integers. The codec
//! round-trips: deserializing a serialized state yields the state back
//! (see [`lemma_codec_round_trip`]).
use vstd::arithmetic::div_mod::{lemma_div_denominator, lemma_fundamental_div_mod, lemma_mod_bound};
use vstd::prelude::*;
use vstd::slice::slice_index_get;

use crate::{Slot, Step};

verus! {

/// The byte budget every serialized state fits in, whatever its variant.
pub const MAX_SERIALIZED_SIZE: usize = 64;

/// Request indicating that the bootloader should perform a specific
/// strategy, together with the progress made on it.
#[derive(Clone, Copy, PartialEq, Eq, Structural, Debug)]
pub struct Request<S> {
    /// The underlying strategy specific request.
    pub strategy: S,
    /// The step indicating the progress on the request execution.
    ///
    /// If set to the last step of a strategy, it indicates that a boot of
    /// the image will be attempted. If this attempt fails, the revert bit
    /// is set and the previous image (if any) is recovered.
    pub step: Step,
    /// Bit to indicate that the original request was attempted and
    /// failed. The steps then indicate how far along the strategy is in
    /// reverting to the previous (working) situation.
    pub revert: bool,
}

/// State as stored by the bootloader.
#[derive(Clone, Copy, PartialEq, Eq, Structural, Debug)]
pub enum State {
    /// Fresh from the factory; boot the primary image.
    Initial,
    /// Swapped to a new image and awaiting its confirmation.
    ///
    /// If the device reboots while Trialing, it will go back to the old
    /// slot with state Failed.
    Trialing { target: Slot, old: Slot },
    /// An image failed its trial, and the previous (working) image is
    /// back in place; boot `current`.
    Failed { current: Slot, failed: Slot },
    /// An image was trialed and confirmed by the running application;
    /// boot `target`.
    Confirmed { target: Slot },
    /// A user requested that a `target` slot is booted.
    Request { current: Slot, target: Slot },
    /// In the process of swapping to a new image between `target` and
    /// `old`.
    Swapping { target: Slot, old: Slot, step: Step },
    /// In the process of swapping back to the old image after `failed`
    /// failed its trial.
    Returning { failed: Slot, old: Slot, step: Step },
}

/// Why serializing or deserializing a state failed.
#[derive(Clone, Copy, PartialEq, Eq, Structural, Debug)]
pub enum SerializationError {
    /// The buffer is too small to hold the serialized state, or holds a
    /// truncated record.
    BufferTooSmall,
    /// The buffer does not hold a state record: unknown tag or an
    /// out-of-range field.
    InvalidFormat,
}

/// The variable-length encoding of an unsigned integer: seven value bits
/// per byte, least significant first, the high bit marking continuation.
pub open spec fn spec_varint(v: nat) -> Seq<u8>
    decreases v,
{
    if v < 0x80 {
        seq![v as u8]
    } else {
        seq![(v % 0x80 + 0x80) as u8] + spec_varint(v / 0x80)
    }
}

/// Reading a variable-length unsigned integer that must fit a `u16` at
/// position `i`: the value and the position after it, or the error.
/// Running off the end of the buffer is a truncation; a third byte that
/// continues further or overflows 16 bits is a format error.
pub open spec fn spec_read_varint(bytes: Seq<u8>, i: int) -> Result<
    (u16, int),
    SerializationError,
> {
    if i >= bytes.len() {
        Err(SerializationError::BufferTooSmall)
    } else if bytes[i] < 0x80 {
        Ok((bytes[i] as u16, i + 1))
    } else if i + 1 >= bytes.len() {
        Err(SerializationError::BufferTooSmall)
    } else if bytes[i + 1] < 0x80 {
        Ok((((bytes[i] - 0x80) + bytes[i + 1] * 0x80) as u16, i + 2))
    } else if i + 2 >= bytes.len() {
        Err(SerializationError::BufferTooSmall)
    } else if bytes[i + 2] < 0x04 {
        Ok(
            (((bytes[i] - 0x80) + (bytes[i + 1] - 0x80) * 0x80 + bytes[i + 2] * 0x4000) as u16, i
                + 3),
        )
    } else {
        Err(SerializationError::InvalidFormat)
    }
}

/// The serialized form of a state: a stable tag byte, one byte per slot,
/// and the step counter as a variable-length unsigned integer.
pub open spec fn spec_serialize(s: State) -> Seq<u8> {
    match s {
        State::Initial => seq![0u8],
        State::Trialing { target, old } => seq![1u8, target.0, old.0],
        State::Failed { current, failed } => seq![2u8, current.0, failed.0],
        State::Confirmed { target } => seq![3u8, target.0],
        State::Request { current, target } => seq![4u8, current.0, target.0],
        State::Swapping { target, old, step } => seq![5u8, target.0, old.0] + spec_varint(
            step.0 as nat,
        ),
        State::Returning { failed, old, step } => seq![6u8, failed.0, old.0] + spec_varint(
            step.0 as nat,
        ),
    }
}

/// What deserializing a buffer yields: the state whose encoding the
/// buffer starts with, `BufferTooSmall` on a truncated record, or
/// `InvalidFormat` on an unknown tag or out-of-range field. Bytes after
/// the record are ignored.
pub open spec fn spec_deserialize(bytes: Seq<u8>) -> Result<State, SerializationError> {
    if bytes.len() == 0 {
        Err(SerializationError::BufferTooSmall)
    } else if bytes[0] == 0 {
        Ok(State::Initial)
    } else if bytes[0] == 1 {
        if bytes.len() < 3 {
            Err(SerializationError::BufferTooSmall)
        } else {
            Ok(State::Trialing { target: Slot(bytes[1]), old: Slot(bytes[2]) })
        }
    } else if bytes[0] == 2 {
        if bytes.len() < 3 {
            Err(SerializationError::BufferTooSmall)
        } else {
            Ok(State::Failed { current: Slot(bytes[1]), failed: Slot(bytes[2]) })
        }
    } else if bytes[0] == 3 {
        if bytes.len() < 2 {
            Err(SerializationError::BufferTooSmall)
        } else {
            Ok(State::Confirmed { target: Slot(bytes[1]) })
        }
    } else if bytes[0] == 4 {
        if bytes.len() < 3 {
            Err(SerializationError::BufferTooSmall)
        } else {
            Ok(State::Request { current: Slot(bytes[1]), target: Slot(bytes[2]) })
        }
    } else if bytes[0] == 5 {
        if bytes.len() < 3 {
            Err(SerializationError::BufferTooSmall)
        } else {
            match spec_read_varint(bytes, 3) {
                Ok((v, _)) => Ok(State::Swapping { target: Slot(bytes[1]), old: Slot(bytes[2]), step: Step(v) }),
                Err(e) => Err(e),
            }
        }
    } else if bytes[0] == 6 {
        if bytes.len() < 3 {
            Err(SerializationError::BufferTooSmall)
        } else {
            match spec_read_varint(bytes, 3) {
                Ok((v, _)) => Ok(State::Returning { failed: Slot(bytes[1]), old: Slot(bytes[2]), step: Step(v) }),
                Err(e) => Err(e),
            }
        }
    } else {
        Err(SerializationError::InvalidFormat)
    }
}

/// The variable-length encoding of a `u16` takes at most three bytes.
pub proof fn lemma_varint_len(v: nat)
    requires
        v <= u16::MAX,
    ensures
        1 <= spec_varint(v).len() <= 3,
{
    if v >= 0x80 {
        let q = v / 0x80;
        assert(q < 0x200) by (nonlinear_arith)
            requires
                q == v / 0x80,
                v <= 0xFFFF,
        ;
        assert(spec_varint(v).len() == 1 + spec_varint(q).len());
        if q >= 0x80 {
            let q2 = q / 0x80;
            assert(q2 < 0x80) by (nonlinear_arith)
                requires
                    q2 == q / 0x80,
                    q < 0x200,
            ;
            assert(spec_varint(q).len() == 1 + spec_varint(q2).len());
            assert(spec_varint(q2).len() == 1);
        } else {
            assert(spec_varint(q).len() == 1);
        }
    } else {
        assert(spec_varint(v).len() == 1);
    }
}

/// Every serialized state fits the fixed buffer budget.
pub proof fn lemma_serialized_size(s: State)
    ensures
        1 <= spec_serialize(s).len() <= 6,
        spec_serialize(s).len() <= MAX_SERIALIZED_SIZE,
{
    match s {
        State::Swapping { step, .. } => lemma_varint_len(step.0 as nat),
        State::Returning { step, .. } => lemma_varint_len(step.0 as nat),
        _ => {},
    }
}

/// Reading a variable-length integer finds the value whose encoding the
/// buffer holds at that position.
proof fn lemma_read_varint(bytes: Seq<u8>, i: int, v: nat)
    requires
        v <= u16::MAX,
        0 <= i,
        i + spec_varint(v).len() <= bytes.len(),
        forall|j: int| 0 <= j < spec_varint(v).len() ==> bytes[i + j] == spec_varint(v)[j],
    ensures
        spec_read_varint(bytes, i) == Ok::<(u16, int), SerializationError>(
            (v as u16, i + spec_varint(v).len()),
        ),
{
    lemma_fundamental_div_mod(v as int, 0x80);
    lemma_mod_bound(v as int, 0x80);
    if v < 0x80 {
        assert(bytes[i + 0] == spec_varint(v)[0]);
    } else {
        let q = v / 0x80;
        lemma_fundamental_div_mod(q as int, 0x80);
        lemma_mod_bound(q as int, 0x80);
        assert(bytes[i + 0] == spec_varint(v)[0]);
        assert(bytes[i] == v % 0x80 + 0x80);
        assert(spec_varint(v) == seq![(v % 0x80 + 0x80) as u8] + spec_varint(q));
        if q < 0x80 {
            assert(spec_varint(q) == seq![q as u8]);
            assert(spec_varint(v) =~= seq![(v % 0x80 + 0x80) as u8] + seq![q as u8]);
            assert(bytes[i + 1] == spec_varint(v)[1]);
            assert(bytes[i + 1] == q as u8);
            assert((bytes[i] - 0x80) + bytes[i + 1] * 0x80 == v);
        } else {
            let q2 = q / 0x80;
            assert(q < 0x200) by (nonlinear_arith)
                requires
                    q == v / 0x80,
                    v <= 0xFFFF,
            ;
            assert(1 <= q2 < 4) by (nonlinear_arith)
                requires
                    q2 == q / 0x80,
                    0x80 <= q < 0x200,
            ;
            assert(spec_varint(q) == seq![(q % 0x80 + 0x80) as u8] + spec_varint(q2));
            assert(spec_varint(q2) == seq![q2 as u8]);
            assert(spec_varint(v) =~= seq![(v % 0x80 + 0x80) as u8, (q % 0x80 + 0x80) as u8, q2 as u8]);
            assert(bytes[i + 1] == spec_varint(v)[1]);
            assert(bytes[i + 2] == spec_varint(v)[2]);
            assert(q2 == v / 0x4000) by {
                lemma_div_denominator(v as int, 0x80, 0x80);
            }
            assert((bytes[i] - 0x80) + (bytes[i + 1] - 0x80) * 0x80 + bytes[i + 2] * 0x4000 == v);
        }
    }
}

/// The codec round-trips: for every state value, deserializing its
/// serialized form yields the value back.
pub proof fn lemma_codec_round_trip(s: State)
    ensures
        spec_deserialize(spec_serialize(s)) == Ok::<State, SerializationError>(s),
{
    let bytes = spec_serialize(s);
    match s {
        State::Swapping { target, old, step } => {
            lemma_varint_len(step.0 as nat);
            assert(forall|j: int|
                0 <= j < spec_varint(step.0 as nat).len() ==> bytes[3 + j] == spec_varint(
                    step.0 as nat,
                )[j]);
            lemma_read_varint(bytes, 3, step.0 as nat);
        },
        State::Returning { failed, old, step } => {
            lemma_varint_len(step.0 as nat);
            assert(forall|j: int|
                0 <= j < spec_varint(step.0 as nat).len() ==> bytes[3 + j] == spec_varint(
                    step.0 as nat,
                )[j]);
            lemma_read_varint(bytes, 3, step.0 as nat);
        },
        _ => {},
    }
}

/// Append the variable-length encoding of `v` to `out`.
fn push_varint(out: &mut Vec<u8>, v: u16)
    ensures
        final(out)@ == old(out)@ + spec_varint(v as nat),
{
    let mut x = v;
    while x >= 0x80
        invariant
            old(out)@ + spec_varint(v as nat) == out@ + spec_varint(x as nat),
        decreases x,
    {
        out.push((x % 0x80 + 0x80) as u8);
        proof {
            assert(old(out)@ + spec_varint(v as nat) =~= out@ + spec_varint((x / 0x80) as nat));
        }
        x = x / 0x80;
    }
    out.push(x as u8);
    proof {
        assert(final(out)@ =~= old(out)@ + spec_varint(v as nat));
    }
}

impl State {
    /// The serialized form of this state, as a fresh byte vector.
    pub fn serialize(&self) -> (r: Vec<u8>)
        ensures
            r@ == spec_serialize(*self),
    {
        let mut out: Vec<u8> = Vec::new();
        match self {
            State::Initial => {
                out.push(0);
            },
            State::Trialing { target, old } => {
                out.push(1);
                out.push(target.0);
                out.push(old.0);
            },
            State::Failed { current, failed } => {
                out.push(2);
                out.push(current.0);
                out.push(failed.0);
            },
            State::Confirmed { target } => {
                out.push(3);
                out.push(target.0);
            },
            State::Request { current, target } => {
                out.push(4);
                out.push(current.0);
                out.push(target.0);
            },
            State::Swapping { target, old, step } => {
                out.push(5);
                out.push(target.0);
                out.push(old.0);
                push_varint(&mut out, step.0);
            },
            State::Returning { failed, old, step } => {
                out.push(6);
                out.push(failed.0);
                out.push(old.0);
                push_varint(&mut out, step.0);
            },
        }
        proof {
            assert(out@ =~= spec_serialize(*self));
        }
        out
    }

    /// Serialize this state into the start of `buffer`, returning how
    /// many bytes were written. Fails, leaving the buffer untouched, only
    /// when the buffer is shorter than the serialized state; a buffer of
    /// [`MAX_SERIALIZED_SIZE`] bytes always suffices.
    pub fn serialize_into(&self, buffer: &mut Vec<u8>) -> (r: Result<usize, SerializationError>)
        ensures
            final(buffer)@.len() == old(buffer)@.len(),
            r is Ok <==> spec_serialize(*self).len() <= old(buffer)@.len(),
            r matches Ok(n) ==> {
                &&& n == spec_serialize(*self).len()
                &&& final(buffer)@ == spec_serialize(*self) + old(buffer)@.skip(n as int)
            },
            r is Err ==> r == Err::<usize, SerializationError>(SerializationError::BufferTooSmall)
                && final(buffer)@ == old(buffer)@,
    {
        let bytes = self.serialize();
        if bytes.len() > buffer.len() {
            return Err(SerializationError::BufferTooSmall);
        }
        let n = bytes.len();
        let mut i: usize = 0;
        while i < n
            invariant
                n == bytes@.len() <= buffer@.len(),
                i <= n,
                buffer@.len() == old(buffer)@.len(),
                forall|j: int| 0 <= j < i ==> buffer@[j] == bytes@[j],
                forall|j: int| i <= j < buffer@.len() ==> buffer@[j] == old(buffer)@[j],
            decreases n - i,
        {
            let b = *slice_index_get(bytes.as_slice(), i);
            buffer.set(i, b);
            i += 1;
        }
        proof {
            assert(final(buffer)@ =~= spec_serialize(*self) + old(buffer)@.skip(n as int));
        }
        Ok(n)
    }

    /// Deserialize a state from the start of `buffer`; bytes after the
    /// record are ignored. Fails with `BufferTooSmall` on a truncated
    /// record and with `InvalidFormat` on an unknown tag or an
    /// out-of-range step field.
    pub fn deserialize_from(buffer: &[u8]) -> (r: Result<State, SerializationError>)
        ensures
            r == spec_deserialize(buffer@),
    {
        if buffer.len() == 0 {
            return Err(SerializationError::BufferTooSmall);
        }
        let tag = *slice_index_get(buffer, 0);
        match tag {
            0 => Ok(State::Initial),
            1 => {
                if buffer.len() < 3 {
                    Err(SerializationError::BufferTooSmall)
                } else {
                    Ok(
                        State::Trialing {
                            target: Slot(*slice_index_get(buffer, 1)),
                            old: Slot(*slice_index_get(buffer, 2)),
                        },
                    )
                }
            },
            2 => {
                if buffer.len() < 3 {
                    Err(SerializationError::BufferTooSmall)
                } else {
                    Ok(
                        State::Failed {
                            current: Slot(*slice_index_get(buffer, 1)),
                            failed: Slot(*slice_index_get(buffer, 2)),
                        },
                    )
                }
            },
            3 => {
                if buffer.len() < 2 {
                    Err(SerializationError::BufferTooSmall)
                } else {
                    Ok(State::Confirmed { target: Slot(*slice_index_get(buffer, 1)) })
                }
            },
            4 => {
                if buffer.len() < 3 {
                    Err(SerializationError::BufferTooSmall)
                } else {
                    Ok(
                        State::Request {
                            current: Slot(*slice_index_get(buffer, 1)),
                            target: Slot(*slice_index_get(buffer, 2)),
                        },
                    )
                }
            },
            5 => {
                if buffer.len() < 3 {
                    Err(SerializationError::BufferTooSmall)
                } else {
                    match read_varint(buffer, 3) {
                        Ok((v, _)) => Ok(
                            State::Swapping {
                                target: Slot(*slice_index_get(buffer, 1)),
                                old: Slot(*slice_index_get(buffer, 2)),
                                step: Step(v),
                            },
                        ),
                        Err(e) => Err(e),
                    }
                }
            },
            6 => {
                if buffer.len() < 3 {
                    Err(SerializationError::BufferTooSmall)
                } else {
                    match read_varint(buffer, 3) {
                        Ok((v, _)) => Ok(
                            State::Returning {
                                failed: Slot(*slice_index_get(buffer, 1)),
                                old: Slot(*slice_index_get(buffer, 2)),
                                step: Step(v),
                            },
                        ),
                        Err(e) => Err(e),
                    }
                }
            },
            _ => Err(SerializationError::InvalidFormat),
        }
    }
}

/// Read a variable-length `u16` at position `i` of the buffer.
fn read_varint(buffer: &[u8], i: usize) -> (r: Result<(u16, usize), SerializationError>)
    ensures
        r matches Ok((v, next)) ==> spec_read_varint(buffer@, i as int) == Ok::<
            (u16, int),
            SerializationError,
        >((v, next as int)),
        r matches Err(e) ==> spec_read_varint(buffer@, i as int) == Err::<
            (u16, int),
            SerializationError,
        >(e),
{
    if i >= buffer.len() {
        Err(SerializationError::BufferTooSmall)
    } else {
        let b0 = *slice_index_get(buffer, i);
        if b0 < 0x80 {
            Ok((b0 as u16, i + 1))
        } else if i + 1 >= buffer.len() {
            Err(SerializationError::BufferTooSmall)
        } else {
            let b1 = *slice_index_get(buffer, i + 1);
            if b1 < 0x80 {
                Ok(((b0 - 0x80) as u16 + b1 as u16 * 0x80, i + 2))
            } else if i + 2 >= buffer.len() {
                Err(SerializationError::BufferTooSmall)
            } else {
                let b2 = *slice_index_get(buffer, i + 2);
                if b2 < 0x04 {
                    Ok(
                        (
                            (b0 - 0x80) as u16 + (b1 - 0x80) as u16 * 0x80 + b2 as u16 * 0x4000,
                            i + 3,
                        ),
                    )
                } else {
                    Err(SerializationError::InvalidFormat)
                }
            }
        }
    }
}

} // verus!
