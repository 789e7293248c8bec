//! The end-of-central-directory records of a ZIP container.

use vstd::prelude::*;

verus! {

/// Length of an end-of-central-directory record without its comment.
pub const EOCD_LEN: usize = 22;

/// Length of the fixed part of a Zip64 end-of-central-directory record.
pub const EOCD64_LEN: usize = 56;

/// Length of the locator of a Zip64 end-of-central-directory record.
pub const LOCATOR_LEN: usize = 20;

/// The little-endian 16-bit number at an offset.
pub open spec fn le16(s: Seq<u8>, at: int) -> nat {
    (s[at] + 0x100 * s[at + 1]) as nat
}

/// The little-endian 32-bit number at an offset.
pub open spec fn le32(s: Seq<u8>, at: int) -> nat {
    (le16(s, at) + 0x1_0000 * le16(s, at + 2)) as nat
}

/// The little-endian 64-bit number at an offset.
pub open spec fn le64(s: Seq<u8>, at: int) -> nat {
    (le16(s, at) + 0x1_0000 * le16(s, at + 2) + 0x1_0000_0000 * le16(s, at + 4)
        + 0x1_0000_0000_0000 * le16(s, at + 6)) as nat
}

/// Whether the bytes `P K a b` stand at an offset.
pub open spec fn signature_at(s: Seq<u8>, at: int, a: u8, b: u8) -> bool {
    s[at] == 0x50 && s[at + 1] == 0x4B && s[at + 2] == a && s[at + 3] == b
}

/// The part of a container in which its end record has to lie: the record and
/// the longest comment that can follow it.
pub open spec fn record_window(data: Seq<u8>) -> Seq<u8> {
    if data.len() <= EOCD_LEN + 0xFFFF {
        data
    } else {
        data.skip(data.len() - (EOCD_LEN + 0xFFFF))
    }
}

/// Whether an end record stands at `at` whose comment reaches exactly to the
/// end of the bytes.
pub open spec fn classic_record(tail: Seq<u8>, at: int) -> bool {
    &&& 0 <= at
    &&& at + EOCD_LEN <= tail.len()
    &&& signature_at(tail, at, 5, 6)
    &&& tail.len() - at == EOCD_LEN + le16(tail, at + 20)
}

/// Whether a Zip64 end record stands at `at` that states at least the length
/// of its fixed part.
pub open spec fn zip64_record(tail: Seq<u8>, at: int) -> bool {
    &&& 0 <= at
    &&& at + EOCD64_LEN <= tail.len()
    &&& signature_at(tail, at, 6, 6)
    &&& le64(tail, at + 4) >= 44
}

/// Whether a record before `limit` declares `count` members.
pub open spec fn classic_declares(tail: Seq<u8>, limit: int, count: nat) -> bool {
    exists|at: int| at < limit && #[trigger] classic_record(tail, at) && le16(tail, at + 10) == count
}

/// Whether a Zip64 record before `limit` declares `count` members.
pub open spec fn zip64_declares(tail: Seq<u8>, limit: int, count: nat) -> bool {
    exists|at: int| at < limit && #[trigger] zip64_record(tail, at) && le64(tail, at + 32) == count
}

/// Whether some end record of the container, of either kind, declares `count`
/// members.
pub open spec fn declares(data: Seq<u8>, count: nat) -> bool {
    let tail = record_window(data);
    classic_declares(tail, tail.len() as int, count) || zip64_declares(
        tail,
        tail.len() as int,
        count,
    )
}

/// Whether `found` is the largest of the counts that satisfy `declared`.
pub open spec fn is_largest(found: Option<u64>, declared: spec_fn(nat) -> bool) -> bool {
    match found {
        Some(most) => declared(most as nat) && forall|n: nat| #[trigger] declared(n) ==> n <= most,
        None => forall|n: nat| !(#[trigger] declared(n)),
    }
}

/// Whether `found` is the largest count that an end record of the container
/// declares, and `None` if there is no end record.
pub open spec fn is_declared_count(data: Seq<u8>, found: Option<u64>) -> bool {
    is_largest(found, |n: nat| declares(data, n))
}

/// The largest count that an end record of the container declares, if there is
/// an end record.
pub open spec fn declared_count(data: Seq<u8>) -> Option<u64> {
    choose|found: Option<u64>| is_declared_count(data, found)
}

/// There is only one largest count.
proof fn lemma_declared_count(data: Seq<u8>, found: Option<u64>)
    requires
        is_declared_count(data, found),
    ensures
        declared_count(data) == found,
{
    let declared = |n: nat| declares(data, n);
    let other = declared_count(data);
    assert(is_largest(other, declared));
    if let Some(a) = found {
        assert(declared(a as nat));
    }
    if let Some(b) = other {
        assert(declared(b as nat));
    }
}

/// Among counts up to `bound` there is a largest one.
proof fn lemma_largest_below(declared: spec_fn(nat) -> bool, bound: nat) -> (found: Option<u64>)
    requires
        bound <= u64::MAX,
        forall|n: nat| #[trigger] declared(n) ==> n <= bound,
    ensures
        is_largest(found, declared),
    decreases bound,
{
    if declared(bound) {
        Some(bound as u64)
    } else if bound == 0 {
        None
    } else {
        assert forall|n: nat| #[trigger] declared(n) implies n <= bound - 1 by {
            assert(n != bound);
        }
        lemma_largest_below(declared, (bound - 1) as nat)
    }
}

/// No record can hide another: the count that is read from a container is at
/// least what any consistent record in it declares.
pub proof fn law_no_record_hides_another(data: Seq<u8>, count: nat)
    requires
        declares(data, count),
    ensures
        declared_count(data) is Some,
        count <= declared_count(data)->0,
{
    let declared = |n: nat| declares(data, n);
    assert forall|n: nat| #[trigger] declared(n) implies n <= u64::MAX by {
        let tail = record_window(data);
        if classic_declares(tail, tail.len() as int, n) {
            let at = choose|at: int|
                at < tail.len() && #[trigger] classic_record(tail, at) && le16(tail, at + 10) == n;
            assert(le16(tail, at + 10) <= 0xFFFF);
        } else {
            let at = choose|at: int|
                at < tail.len() && #[trigger] zip64_record(tail, at) && le64(tail, at + 32) == n;
            assert(le64(tail, at + 32) <= u64::MAX);
        }
    }
    let found = lemma_largest_below(declared, u64::MAX as nat);
    assert(is_declared_count(data, found));
    lemma_declared_count(data, found);
    assert(declared(count));
}

fn u16_at(bytes: &[u8], at: usize) -> (n: u16)
    requires
        at + 2 <= bytes.len(),
    ensures
        n == le16(bytes@, at as int),
{
    bytes[at] as u16 + 0x100 * (bytes[at + 1] as u16)
}

fn u64_at(bytes: &[u8], at: usize) -> (n: u64)
    requires
        at + 8 <= bytes.len(),
    ensures
        n == le64(bytes@, at as int),
{
    u16_at(bytes, at) as u64 + 0x1_0000 * (u16_at(bytes, at + 2) as u64) + 0x1_0000_0000 * (u16_at(
        bytes,
        at + 4,
    ) as u64) + 0x1_0000_0000_0000 * (u16_at(bytes, at + 6) as u64)
}

fn has_signature(bytes: &[u8], at: usize, a: u8, b: u8) -> (r: bool)
    requires
        at + 4 <= bytes.len(),
    ensures
        r == signature_at(bytes@, at as int, a, b),
{
    bytes[at] == 0x50 && bytes[at + 1] == 0x4B && bytes[at + 2] == a && bytes[at + 3] == b
}

fn larger(seen: Option<u64>, count: u64) -> (r: Option<u64>)
    ensures
        r == Some(
            if seen is Some && seen->0 >= count {
                seen->0
            } else {
                count
            },
        ),
{
    match seen {
        Some(s) => if s >= count {
            Some(s)
        } else {
            Some(count)
        },
        None => Some(count),
    }
}

/// The member count that a ZIP container declares, read from its end records
/// without touching the central directory.
///
/// A container can hold bytes that look like an end record in its comment, and
/// a Zip64 record beside the classic one.  Every consistent record counts, and
/// the largest declared number is returned: a planted record can raise the
/// result, never hide the number of another.  `None` means that no record
/// could be found.
pub fn peek_entry_count(data: &[u8]) -> (r: Option<u64>)
    ensures
        is_declared_count(data@, r),
        r == declared_count(data@),
{
    let window: usize = if data.len() < EOCD_LEN + 0xFFFF {
        data.len()
    } else {
        EOCD_LEN + 0xFFFF
    };
    let tail = vstd::slice::slice_subrange(data, data.len() - window, data.len());
    assert(tail@ == record_window(data@));

    let mut declared: Option<u64> = None;
    let mut at: usize = 0;
    while at < tail.len()
        invariant
            at <= tail.len(),
            is_largest(declared, |n: nat| classic_declares(tail@, at as int, n)),
        decreases tail.len() - at,
    {
        let ghost before = declared;
        if tail.len() - at >= EOCD_LEN && has_signature(tail, at, 5, 6) && tail.len() - at
            == EOCD_LEN + u16_at(tail, at + 20) as usize {
            declared = larger(declared, u16_at(tail, at + 10) as u64);
            assert(classic_record(tail@, at as int));
        } else {
            assert(!classic_record(tail@, at as int));
        }
        proof {
            lemma_step(
                before,
                declared,
                |n: nat| classic_declares(tail@, at as int, n),
                |n: nat| classic_declares(tail@, at + 1, n),
                if classic_record(tail@, at as int) { Some(le16(tail@, at + 10)) } else { None },
            );
        }
        at = at + 1;
    }

    proof {
        lemma_step(
            declared,
            declared,
            |n: nat| classic_declares(tail@, tail.len() as int, n),
            |n: nat|
                classic_declares(tail@, tail.len() as int, n) || zip64_declares(tail@, 0, n),
            None,
        );
    }
    let mut at: usize = 0;
    while at < tail.len()
        invariant
            at <= tail.len(),
            is_largest(
                declared,
                |n: nat|
                    classic_declares(tail@, tail.len() as int, n) || zip64_declares(
                        tail@,
                        at as int,
                        n,
                    ),
            ),
        decreases tail.len() - at,
    {
        let ghost before = declared;
        if tail.len() - at >= EOCD64_LEN && has_signature(tail, at, 6, 6) && u64_at(tail, at + 4)
            >= 44 {
            declared = larger(declared, u64_at(tail, at + 32));
            assert(zip64_record(tail@, at as int));
        } else {
            assert(!zip64_record(tail@, at as int));
        }
        proof {
            lemma_step(
                before,
                declared,
                |n: nat|
                    classic_declares(tail@, tail.len() as int, n) || zip64_declares(
                        tail@,
                        at as int,
                        n,
                    ),
                |n: nat|
                    classic_declares(tail@, tail.len() as int, n) || zip64_declares(
                        tail@,
                        at + 1,
                        n,
                    ),
                if zip64_record(tail@, at as int) { Some(le64(tail@, at + 32)) } else { None },
            );
        }
        at = at + 1;
    }
    proof {
        lemma_step(
            declared,
            declared,
            |n: nat|
                classic_declares(tail@, tail.len() as int, n) || zip64_declares(
                    tail@,
                    tail.len() as int,
                    n,
                ),
            |n: nat| declares(data@, n),
            None,
        );
        lemma_declared_count(data@, declared);
    }
    declared
}

/// One more declared count keeps the largest of them up to date.
proof fn lemma_step(
    before: Option<u64>,
    after: Option<u64>,
    old_counts: spec_fn(nat) -> bool,
    new_counts: spec_fn(nat) -> bool,
    added: Option<nat>,
)
    requires
        is_largest(before, old_counts),
        forall|n: nat| #[trigger] new_counts(n) <==> old_counts(n) || added == Some(n),
        added is None ==> after == before,
        added matches Some(n) ==> after is Some && after->0 as nat == if before is Some
            && before->0 >= n {
            before->0 as nat
        } else {
            n
        },
    ensures
        is_largest(after, new_counts),
{
    if let Some(most) = before {
        assert(old_counts(most as nat));
    }
    if let Some(most) = after {
        assert(new_counts(most as nat));
    }
    assert forall|n: nat| #[trigger] new_counts(n) implies after matches Some(most) && n <= most by {
        if old_counts(n) {
        }
    }
}

} // verus!
