//! Delivery decisions: which sessions receive a processed envelope.
//!
//! Response kinds go back to the requester alone; every other kind fans out
//! to each registered session except its author.  The shutdown path builds
//! one farewell per active session.

use vstd::prelude::*;
use crate::model::{Message, MessageType, PayloadView};
use crate::registry::{lemma_no_dup_push, Registry};
use crate::session::{shutdown_notice, shutdown_text};

verus! {

/// Response kinds are delivered to the requester alone.
pub open spec fn is_direct_only_spec(p: PayloadView) -> bool {
    match p {
        PayloadView::LoginResponse(_) => true,
        PayloadView::RegisterResponse(_) => true,
        PayloadView::OldMessagesResponse(_) => true,
        _ => false,
    }
}

/// Whether this payload kind must never be fanned out.
pub fn is_direct_only(m: &MessageType) -> (r: bool)
    ensures
        r == is_direct_only_spec(m@),
{
    match m {
        MessageType::LoginResponse(_) => true,
        MessageType::RegisterResponse(_) => true,
        MessageType::OldMessagesResponse(_) => true,
        _ => false,
    }
}

/// Keeps every identity but the author's.
pub open spec fn not_author(author: u64) -> spec_fn(u64) -> bool {
    |id: u64| id != author
}

/// The identities a broadcast from `author` is delivered to, given a
/// snapshot of the registered identities.
pub open spec fn spec_targets(ids: Seq<u64>, author: u64) -> Seq<u64> {
    ids.filter(not_author(author))
}

/// Computes the delivery list of one broadcast: the snapshot in its order,
/// with the author taken out.
pub fn broadcast_targets(ids: &Vec<u64>, author: u64) -> (r: Vec<u64>)
    ensures
        r@ == spec_targets(ids@, author),
{
    let mut out: Vec<u64> = Vec::new();
    let mut i: usize = 0;
    proof {
        assert(ids@.take(0).filter(not_author(author)) =~= Seq::<u64>::empty());
    }
    while i < ids.len()
        invariant
            i <= ids@.len(),
            out@ == ids@.take(i as int).filter(not_author(author)),
        decreases ids@.len() - i,
    {
        let id = ids[i];
        proof {
            Seq::filter_distributes_over_add(
                ids@.take(i as int),
                seq![ids@[i as int]],
                not_author(author),
            );
            assert(ids@.take(i as int) + seq![ids@[i as int]] =~= ids@.take(i as int + 1));
            reveal_with_fuel(Seq::filter, 2);
            assert(seq![ids@[i as int]].drop_last() =~= Seq::<u64>::empty());
            if not_author(author)(ids@[i as int]) {
                assert(seq![ids@[i as int]].filter(not_author(author)) =~= seq![ids@[i as int]]);
            } else {
                assert(seq![ids@[i as int]].filter(not_author(author)) =~= Seq::<u64>::empty());
            }
        }
        if id != author {
            out.push(id);
        }
        i = i + 1;
    }
    proof {
        assert(ids@.take(ids@.len() as int) =~= ids@);
    }
    out
}

/// A filtered duplicate-free sequence stays duplicate-free.
proof fn lemma_filter_keeps_no_dup(s: Seq<u64>, pred: spec_fn(u64) -> bool)
    requires
        s.no_duplicates(),
    ensures
        s.filter(pred).no_duplicates(),
    decreases s.len(),
{
    reveal(Seq::filter);
    if s.len() == 0 {
    } else {
        lemma_filter_keeps_no_dup(s.drop_last(), pred);
        if pred(s.last()) {
            assert(s.filter(pred) == s.drop_last().filter(pred).push(s.last()));
            assert(!s.drop_last().filter(pred).contains(s.last())) by {
                if s.drop_last().filter(pred).contains(s.last()) {
                    let sub = s.drop_last();
                    sub.lemma_filter_contains_rev(pred, s.last());
                    let k = choose|k: int| 0 <= k < sub.len() && sub[k] == s.last();
                    assert(sub[k] == s[k]);
                    assert(s[k] == s.last() && s[s.len() - 1] == s.last());
                }
            }
            lemma_no_dup_push(s.drop_last().filter(pred), s.last());
        }
    }
}

/// Law of the broadcast fan-out: over any snapshot of the registered
/// identities, the delivery list holds exactly the registered identities
/// other than the author's, each once, and never the author's own.
pub proof fn lemma_broadcast_excludes_author(snapshot: Seq<u64>, dom: Set<u64>, author: u64)
    requires
        snapshot.no_duplicates(),
        forall|id: u64| #[trigger] snapshot.contains(id) <==> dom.contains(id),
    ensures
        forall|id: u64| #[trigger] spec_targets(snapshot, author).contains(id) <==> dom.contains(
            id,
        ) && id != author,
        !spec_targets(snapshot, author).contains(author),
        spec_targets(snapshot, author).no_duplicates(),
{
    let targets = spec_targets(snapshot, author);
    assert forall|id: u64| #[trigger] targets.contains(id) <==> dom.contains(id) && id
        != author by {
        if targets.contains(id) {
            let j = choose|j: int| 0 <= j < targets.len() && targets[j] == id;
            snapshot.lemma_filter_pred(not_author(author), j);
            snapshot.lemma_filter_contains_rev(not_author(author), id);
            assert(snapshot.contains(id));
        }
        if dom.contains(id) && id != author {
            assert(snapshot.contains(id));
            let k = choose|k: int| 0 <= k < snapshot.len() && snapshot[k] == id;
            snapshot.lemma_filter_contains(not_author(author), k);
        }
    }
    lemma_filter_keeps_no_dup(snapshot, not_author(author));
}

/// The dispatcher's whole decision for one processed envelope: a response
/// kind is delivered to its author alone, and every other kind to each
/// identity of the snapshot except the author's.
pub fn delivery_plan(snapshot: &Vec<u64>, author: u64, m: &MessageType) -> (r: Vec<u64>)
    ensures
        is_direct_only_spec(m@) ==> r@ == seq![author],
        !is_direct_only_spec(m@) ==> r@ == spec_targets(snapshot@, author),
        !is_direct_only_spec(m@) ==> !r@.contains(author),
{
    if is_direct_only(m) {
        let mut out: Vec<u64> = Vec::new();
        out.push(author);
        proof {
            assert(out@ =~= seq![author]);
        }
        out
    } else {
        let out = broadcast_targets(snapshot, author);
        proof {
            if out@.contains(author) {
                let j = choose|j: int| 0 <= j < out@.len() && out@[j] == author;
                snapshot@.lemma_filter_pred(not_author(author), j);
            }
        }
        out
    }
}

/// The identities of a delivery list.
pub open spec fn notice_ids(r: Seq<(u64, Message)>) -> Seq<u64> {
    r.map_values(|p: (u64, Message)| p.0)
}

/// Builds the farewell deliveries of an orderly shutdown: one notice per
/// registered session, each carrying the stop message.
pub fn shutdown_notices(reg: &Registry, datetime: u64) -> (r: Vec<(u64, Message)>)
    requires
        reg.wf(),
    ensures
        r@.len() == reg@.dom().len(),
        notice_ids(r@).no_duplicates(),
        forall|id: u64| #[trigger] notice_ids(r@).contains(id) <==> reg@.dom().contains(id),
        forall|i: int|
            0 <= i < r@.len() ==> (#[trigger] r@[i].1)@.message == PayloadView::UnrecoverableError(
                shutdown_text(),
            ) && r@[i].1@.datetime == datetime,
{
    let ids = reg.snapshot_ids();
    let mut out: Vec<(u64, Message)> = Vec::new();
    let mut i: usize = 0;
    while i < ids.len()
        invariant
            i <= ids@.len(),
            ids@.no_duplicates(),
            forall|id: u64| #[trigger] ids@.contains(id) <==> reg@.dom().contains(id),
            ids@.len() == reg@.dom().len(),
            notice_ids(out@) =~= ids@.take(i as int),
            forall|j: int|
                0 <= j < out@.len() ==> (#[trigger] out@[j].1)@.message
                    == PayloadView::UnrecoverableError(shutdown_text()) && out@[j].1@.datetime
                    == datetime,
        decreases ids@.len() - i,
    {
        let notice = shutdown_notice(datetime);
        let id = ids[i];
        out.push((id, notice));
        proof {
            assert(notice_ids(out@) =~= ids@.take(i as int).push(ids@[i as int]));
            assert(ids@.take(i as int).push(ids@[i as int]) =~= ids@.take(i as int + 1));
        }
        i = i + 1;
    }
    proof {
        assert(ids@.take(ids@.len() as int) =~= ids@);
    }
    out
}

} // verus!
