//! Terminals, and descriptors that are passed over a socket.
use vstd::prelude::*;

verus! {

/// The size of a terminal.
#[derive(Clone, Copy, Debug, Default, PartialEq, Eq, Structural)]
pub struct WindowSize {
    pub rows: u16,
    pub columns: u16,
    pub x_pixels: u16,
    pub y_pixels: u16,
}

/// The head of one control message as it was received.
#[derive(Clone, Copy, Debug, PartialEq, Eq, Structural)]
pub struct ControlHeader {
    /// The length of the message with its head.
    pub length: usize,
    pub level: i32,
    pub kind: i32,
}

/// How control messages are laid out on this machine.
#[derive(Clone, Copy, Debug, PartialEq, Eq, Structural)]
pub struct ControlLayout {
    /// The length of a head.
    pub header_length: usize,
    /// The length of all control messages that came.
    pub control_length: usize,
    /// The size of a descriptor.
    pub descriptor_size: usize,
    /// The level and the kind of messages that pass descriptors.
    pub socket_level: i32,
    pub rights_kind: i32,
}

/// Why passed descriptors are refused.
#[derive(Clone, Copy, Debug, PartialEq, Eq, Structural)]
pub enum DescriptorFault {
    /// A message is shorter than its head or longer than what came.
    Length,
    /// A message holds a part of a descriptor.
    Unaligned,
    /// The kernel had no room for all messages.
    Truncated,
    /// Too few or too many descriptors came.
    Count,
}

/// How many descriptors a message passes.
pub open spec fn passed(layout: ControlLayout, header: ControlHeader) -> Result<
    nat,
    DescriptorFault,
> {
    if header.length < layout.header_length || header.length > layout.control_length {
        Err(DescriptorFault::Length)
    } else if header.level != layout.socket_level || header.kind != layout.rights_kind {
        Ok(0)
    } else if (header.length - layout.header_length) % layout.descriptor_size as int != 0 {
        Err(DescriptorFault::Unaligned)
    } else {
        Ok(((header.length - layout.header_length) / layout.descriptor_size as int) as nat)
    }
}

/// How many descriptors each message passes, up to the first that is refused.
pub open spec fn passed_counts(layout: ControlLayout, headers: Seq<ControlHeader>) -> Seq<nat>
    decreases headers.len(),
{
    if headers.len() == 0 {
        Seq::empty()
    } else {
        let before = passed_counts(layout, headers.drop_last());
        match passed(layout, headers.last()) {
            Ok(count) => if before.len() == headers.len() - 1 {
                before.push(count)
            } else {
                before
            },
            Err(fault) => before,
        }
    }
}

/// The sum of counts.
pub open spec fn total(counts: Seq<nat>) -> nat
    decreases counts.len(),
{
    if counts.len() == 0 {
        0
    } else {
        total(counts.drop_last()) + counts.last()
    }
}

/// What is wrong with the messages, where `count` descriptors are expected.
pub open spec fn receive_fault(
    layout: ControlLayout,
    headers: Seq<ControlHeader>,
    truncated: bool,
    count: nat,
) -> Option<DescriptorFault> {
    let counts = passed_counts(layout, headers);
    if counts.len() < headers.len() {
        match passed(layout, headers[counts.len() as int]) {
            Err(fault) => Some(fault),
            Ok(number) => None,
        }
    } else if truncated {
        Some(DescriptorFault::Truncated)
    } else if total(counts) != count {
        Some(DescriptorFault::Count)
    } else {
        None
    }
}

/// What came of a message with descriptors.
#[derive(Debug, PartialEq, Eq)]
pub struct Receipt {
    /// The descriptors in each accepted control message, in order. They belong
    /// to the receiver whether or not the whole is refused.
    pub counts: Vec<usize>,
    pub fault: Option<DescriptorFault>,
}

/// The counts as mathematical numbers.
pub open spec fn as_nats(counts: Seq<usize>) -> Seq<nat> {
    counts.map_values(|count: usize| count as nat)
}

proof fn lemma_counts_bounded(layout: ControlLayout, headers: Seq<ControlHeader>)
    ensures
        passed_counts(layout, headers).len() <= headers.len(),
    decreases headers.len(),
{
    if headers.len() > 0 {
        lemma_counts_bounded(layout, headers.drop_last());
    }
}

proof fn lemma_counts_stop(layout: ControlLayout, headers: Seq<ControlHeader>, i: int)
    requires
        0 <= i < headers.len(),
        passed_counts(layout, headers.take(i)).len() == i,
        passed(layout, headers[i]) is Err,
    ensures
        passed_counts(layout, headers) == passed_counts(layout, headers.take(i)),
    decreases headers.len(),
{
    let shorter = headers.drop_last();
    if i == headers.len() - 1 {
        assert(headers.take(i) =~= shorter);
    } else {
        assert(shorter.take(i) =~= headers.take(i));
        lemma_counts_stop(layout, shorter, i);
    }
}

/// Judges the control messages that came, where `count` descriptors are
/// expected.
pub fn receive_fds(
    layout: ControlLayout,
    headers: &Vec<ControlHeader>,
    truncated: bool,
    count: usize,
) -> (receipt: Receipt)
    requires
        layout.descriptor_size > 0,
    ensures
        as_nats(receipt.counts@) == passed_counts(layout, headers@),
        receipt.fault == receive_fault(layout, headers@, truncated, count as nat),
{
    let mut counts: Vec<usize> = Vec::new();
    let mut sum: Option<usize> = Some(0);
    let mut i: usize = 0;
    assert(as_nats(counts@) =~= Seq::<nat>::empty());
    while i < headers.len()
        invariant
            i <= headers.len(),
            layout.descriptor_size > 0,
            counts@.len() == i,
            as_nats(counts@) == passed_counts(layout, headers@.take(i as int)),
            match sum {
                Some(number) => number == total(as_nats(counts@)),
                None => total(as_nats(counts@)) > usize::MAX,
            },
        decreases headers.len() - i,
    {
        let header = headers[i];
        let ghost before = as_nats(counts@);
        assert(headers@.take(i + 1).drop_last() =~= headers@.take(i as int));
        if header.length < layout.header_length || header.length > layout.control_length {
            proof {
                lemma_counts_stop(layout, headers@, i as int);
            }
            return Receipt { counts, fault: Some(DescriptorFault::Length) };
        }
        let number: usize = if header.level == layout.socket_level && header.kind
            == layout.rights_kind {
            let payload: usize = header.length - layout.header_length;
            if payload % layout.descriptor_size != 0 {
                proof {
                    lemma_counts_stop(layout, headers@, i as int);
                }
                return Receipt { counts, fault: Some(DescriptorFault::Unaligned) };
            }
            payload / layout.descriptor_size
        } else {
            0
        };
        counts.push(number);
        assert(as_nats(counts@) =~= before.push(number as nat));
        assert(before.push(number as nat).drop_last() =~= before);
        sum = match sum {
            Some(so_far) => so_far.checked_add(number),
            None => None,
        };
        i += 1;
    }
    assert(headers@.take(i as int) =~= headers@);
    let fault = if truncated {
        Some(DescriptorFault::Truncated)
    } else if sum == Some(count) {
        None
    } else {
        Some(DescriptorFault::Count)
    };
    Receipt { counts, fault }
}

/// Messages are accepted only as a whole: without a fault, every message was
/// taken and exactly the expected number of descriptors came.
pub proof fn law_accepted_descriptors(
    layout: ControlLayout,
    headers: Seq<ControlHeader>,
    truncated: bool,
    count: nat,
)
    requires
        layout.descriptor_size > 0,
        receive_fault(layout, headers, truncated, count) is None,
    ensures
        passed_counts(layout, headers).len() == headers.len(),
        total(passed_counts(layout, headers)) == count,
        !truncated,
{
    lemma_counts_bounded(layout, headers);
    let counts = passed_counts(layout, headers);
    if counts.len() < headers.len() {
        lemma_first_refused(layout, headers);
    }
}

proof fn lemma_first_refused(layout: ControlLayout, headers: Seq<ControlHeader>)
    requires
        passed_counts(layout, headers).len() < headers.len(),
    ensures
        passed(layout, headers[passed_counts(layout, headers).len() as int]) is Err,
    decreases headers.len(),
{
    let shorter = headers.drop_last();
    lemma_counts_bounded(layout, shorter);
    let before = passed_counts(layout, shorter);
    if before.len() < shorter.len() {
        lemma_first_refused(layout, shorter);
    }
}

/// A message passes as many descriptors as fit behind its head exactly, a
/// message of another kind none, and one whose length cannot be right is
/// refused.
pub proof fn law_descriptors_fill_a_message(layout: ControlLayout, header: ControlHeader)
    requires
        layout.descriptor_size > 0,
    ensures
        match passed(layout, header) {
            Ok(count) => {
                &&& layout.header_length <= header.length <= layout.control_length
                &&& header.level == layout.socket_level && header.kind == layout.rights_kind
                    ==> layout.header_length + count * layout.descriptor_size == header.length
                &&& !(header.level == layout.socket_level && header.kind == layout.rights_kind)
                    ==> count == 0
            },
            Err(DescriptorFault::Length) => header.length < layout.header_length || header.length
                > layout.control_length,
            Err(DescriptorFault::Unaligned) => header.level == layout.socket_level && header.kind
                == layout.rights_kind && (header.length - layout.header_length)
                % layout.descriptor_size as int != 0,
            Err(fault) => false,
        },
{
    if passed(layout, header) is Ok {
        let length = header.length - layout.header_length;
        let size = layout.descriptor_size as int;
        if length % size == 0 {
            vstd::arithmetic::div_mod::lemma_fundamental_div_mod(length, size);
            assert(size * (length / size) == (length / size) * size) by (nonlinear_arith);
            assert(length / size >= 0) by (nonlinear_arith)
                requires
                    length >= 0,
                    size > 0,
            ;
        }
    }
}

/// The descriptors of messages add up.
pub proof fn law_descriptors_add_up(a: Seq<nat>, b: Seq<nat>, count: nat)
    ensures
        total(a + b) == total(a) + total(b),
        total(seq![count]) == count,
        total(Seq::empty()) == 0,
    decreases b.len(),
{
    reveal_with_fuel(total, 2);
    assert(seq![count].drop_last() =~= Seq::<nat>::empty());
    if b.len() == 0 {
        assert(a + b =~= a);
    } else {
        law_descriptors_add_up(a, b.drop_last(), count);
        assert((a + b).drop_last() =~= a + b.drop_last());
        assert((a + b).last() == b.last());
    }
}

/// Messages without a fault of their own are accepted exactly where the kernel
/// had room for them and as many descriptors came as were expected.
pub proof fn law_sound_messages_are_accepted(
    layout: ControlLayout,
    headers: Seq<ControlHeader>,
    truncated: bool,
    count: nat,
)
    requires
        forall|i: int| 0 <= i < headers.len() ==> passed(layout, #[trigger] headers[i]) is Ok,
    ensures
        passed_counts(layout, headers).len() == headers.len(),
        forall|i: int|
            0 <= i < headers.len() ==> #[trigger] passed_counts(layout, headers)[i] == passed(
                layout,
                headers[i],
            )->Ok_0,
        truncated ==> receive_fault(layout, headers, truncated, count) == Some(
            DescriptorFault::Truncated,
        ),
        !truncated ==> (receive_fault(layout, headers, truncated, count) is None <==> total(
            passed_counts(layout, headers),
        ) == count),
    decreases headers.len(),
{
    if headers.len() > 0 {
        let shorter = headers.drop_last();
        assert forall|i: int| 0 <= i < shorter.len() implies passed(layout, #[trigger] shorter[i])
            is Ok by {
            assert(shorter[i] == headers[i]);
        }
        law_sound_messages_are_accepted(layout, shorter, truncated, count);
        assert(passed(layout, headers[headers.len() - 1]) is Ok);
        let counts = passed_counts(layout, headers);
        assert forall|i: int| 0 <= i < headers.len() implies #[trigger] counts[i] == passed(
            layout,
            headers[i],
        )->Ok_0 by {
            if i < shorter.len() {
                assert(counts[i] == passed_counts(layout, shorter)[i]);
                assert(shorter[i] == headers[i]);
            }
        }
    }
}

} // verus!
