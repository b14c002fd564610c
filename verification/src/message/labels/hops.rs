use crate::message::labels::pointer::pointer_target;
use crate::message::labels::{lemma_scan_more_hops, out_of_hops, scan, scan_from};
use vstd::prelude::*;
use vstd::set_lib::set_int_range;

verus! {

/// The number of pointers that a reading follows.
pub open spec fn hops_taken(buf: Seq<u8>, at: int, hops: nat) -> nat
    decreases hops, buf.len() - at,
{
    if at < 0 || at >= buf.len() || buf[at] == 0 {
        0
    } else if buf[at] >= 192 {
        if at + 2 > buf.len() || hops == 0 {
            0
        } else {
            1 + hops_taken(buf, pointer_target(buf, at), (hops - 1) as nat)
        }
    } else {
        let end = at + 1 + buf[at];
        if end >= buf.len() {
            0
        } else {
            hops_taken(buf, end, hops)
        }
    }
}

/// The offsets of the pointers that a reading follows.
pub open spec fn pointers_met(buf: Seq<u8>, at: int, hops: nat) -> Set<int>
    decreases hops, buf.len() - at,
{
    if at < 0 || at >= buf.len() || buf[at] == 0 {
        Set::empty()
    } else if buf[at] >= 192 {
        if at + 2 > buf.len() || hops == 0 {
            Set::empty()
        } else {
            pointers_met(buf, pointer_target(buf, at), (hops - 1) as nat).insert(at)
        }
    } else {
        let end = at + 1 + buf[at];
        if end >= buf.len() {
            Set::empty()
        } else {
            pointers_met(buf, end, hops)
        }
    }
}

/// A reading that was not given up for want of hops follows the same
/// pointers with any greater number of them.
pub proof fn lemma_same_pointers(buf: Seq<u8>, at: int, hops: nat, more: nat)
    requires
        buf.len() <= usize::MAX,
        hops <= more,
        !out_of_hops(buf, scan_from(buf, at, hops)),
    ensures
        hops_taken(buf, at, more) == hops_taken(buf, at, hops),
        pointers_met(buf, at, more) == pointers_met(buf, at, hops),
    decreases hops, buf.len() - at,
{
    if at < 0 || at >= buf.len() {
    } else if buf[at] == 0 {
    } else if buf[at] >= 192 {
        if at + 2 <= buf.len() {
            assert(hops > 0);
            lemma_same_pointers(
                buf,
                pointer_target(buf, at),
                (hops - 1) as nat,
                (more - 1) as nat,
            );
        }
    } else {
        let end = at + 1 + buf[at];
        if end < buf.len() {
            lemma_same_pointers(buf, end, hops, more);
        }
    }
}

/// Every pointer that a reading follows lies inside the buffer, and they
/// are finitely many.
pub proof fn lemma_pointers_inside(buf: Seq<u8>, at: int, hops: nat)
    ensures
        pointers_met(buf, at, hops).finite(),
        pointers_met(buf, at, hops).subset_of(set_int_range(0, buf.len() as int)),
    decreases hops, buf.len() - at,
{
    if at < 0 || at >= buf.len() || buf[at] == 0 {
    } else if buf[at] >= 192 {
        if at + 2 <= buf.len() && hops > 0 {
            lemma_pointers_inside(buf, pointer_target(buf, at), (hops - 1) as nat);
        }
    } else {
        let end = at + 1 + buf[at];
        if end < buf.len() {
            lemma_pointers_inside(buf, end, hops);
        }
    }
}

/// A reading that was not given up for want of hops is not given up from
/// any pointer that it follows either, and follows no more pointers from
/// there than it does in all.
pub proof fn lemma_from_a_pointer_met(buf: Seq<u8>, at: int, hops: nat, met: int)
    requires
        buf.len() <= usize::MAX,
        !out_of_hops(buf, scan_from(buf, at, hops)),
        pointers_met(buf, at, hops).contains(met),
    ensures
        !out_of_hops(buf, scan_from(buf, met, hops)),
        hops_taken(buf, met, hops) <= hops_taken(buf, at, hops),
    decreases hops, buf.len() - at,
{
    if at < 0 || at >= buf.len() || buf[at] == 0 {
    } else if buf[at] >= 192 {
        if at + 2 <= buf.len() && hops > 0 {
            if met != at {
                let target = pointer_target(buf, at);
                let less = (hops - 1) as nat;
                lemma_from_a_pointer_met(buf, target, less, met);
                lemma_scan_more_hops(buf, met, less, hops);
                lemma_same_pointers(buf, met, less, hops);
            }
        }
    } else {
        let end = at + 1 + buf[at];
        if end < buf.len() {
            lemma_from_a_pointer_met(buf, end, hops, met);
        }
    }
}

/// A reading that was not given up for want of hops follows no pointer
/// twice.
pub proof fn lemma_no_pointer_twice(buf: Seq<u8>, at: int, hops: nat)
    requires
        buf.len() <= usize::MAX,
        !out_of_hops(buf, scan_from(buf, at, hops)),
    ensures
        pointers_met(buf, at, hops).finite(),
        pointers_met(buf, at, hops).len() == hops_taken(buf, at, hops),
    decreases hops, buf.len() - at,
{
    lemma_pointers_inside(buf, at, hops);
    if at < 0 || at >= buf.len() || buf[at] == 0 {
    } else if buf[at] >= 192 {
        if at + 2 <= buf.len() && hops > 0 {
            let target = pointer_target(buf, at);
            let less = (hops - 1) as nat;
            lemma_no_pointer_twice(buf, target, less);
            lemma_pointers_inside(buf, target, less);
            if pointers_met(buf, target, less).contains(at) {
                lemma_from_a_pointer_met(buf, target, less, at);
                lemma_same_pointers(buf, at, less, hops);
                assert(false);
            }
        }
    } else {
        let end = at + 1 + buf[at];
        if end < buf.len() {
            lemma_no_pointer_twice(buf, end, hops);
        }
    }
}

/// A reading that was not given up for want of hops comes to the same with
/// as many hops as it took.
pub proof fn lemma_hops_taken_suffice(buf: Seq<u8>, at: int, hops: nat)
    requires
        buf.len() <= usize::MAX,
        !out_of_hops(buf, scan_from(buf, at, hops)),
    ensures
        scan_from(buf, at, hops_taken(buf, at, hops)) == scan_from(buf, at, hops),
    decreases hops, buf.len() - at,
{
    if at < 0 || at >= buf.len() || buf[at] == 0 {
    } else if buf[at] >= 192 {
        if at + 2 <= buf.len() {
            assert(hops > 0);
            lemma_hops_taken_suffice(buf, pointer_target(buf, at), (hops - 1) as nat);
        }
    } else {
        let end = at + 1 + buf[at];
        if end < buf.len() {
            lemma_hops_taken_suffice(buf, end, hops);
        }
    }
}

/// The limit on pointers gives up no name that has an end.
///
/// A reading that is given up after as many pointers as the buffer has
/// bytes is given up after any number of them: it runs in a circle. And a
/// reading that is not given up comes to the same with any greater number.
pub proof fn hop_limit_is_exact(buf: Seq<u8>, at: int, hops: nat)
    requires
        buf.len() <= usize::MAX,
    ensures
        out_of_hops(buf, scan(buf, at)) ==> out_of_hops(buf, scan_from(buf, at, hops)),
        !out_of_hops(buf, scan(buf, at)) && hops >= buf.len() ==> scan_from(buf, at, hops) == scan(
            buf,
            at,
        ),
{
    if !out_of_hops(buf, scan_from(buf, at, hops)) {
        let taken = hops_taken(buf, at, hops);
        lemma_no_pointer_twice(buf, at, hops);
        lemma_pointers_inside(buf, at, hops);
        vstd::set_lib::lemma_int_range(0, buf.len() as int);
        vstd::set_lib::lemma_len_subset(
            pointers_met(buf, at, hops),
            set_int_range(0, buf.len() as int),
        );
        assert(taken <= buf.len());
        lemma_hops_taken_suffice(buf, at, hops);
        lemma_scan_more_hops(buf, at, taken, buf.len());
    }
    if !out_of_hops(buf, scan(buf, at)) && hops >= buf.len() {
        lemma_scan_more_hops(buf, at, buf.len(), hops);
    }
}

} // verus!
