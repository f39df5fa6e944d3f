//! A session's prompts: the one running, the ones waiting their turn, and
//! the one put aside to go next when a running prompt is cancelled for it.
use vstd::prelude::*;
use crate::types::{QueueItem, PromptFile, files_view, copy_files};
use crate::text::str_eq;

verus! {

/// A waiting prompt as plain values: its id, text and attached files.
pub type ItemV = (Seq<char>, Seq<char>, Seq<(Seq<char>, Option<Seq<char>>)>);

pub open spec fn item_view(q: QueueItem) -> ItemV {
    (q.id@, q.text@, files_view(q.files@))
}

pub open spec fn items_view(v: Seq<QueueItem>) -> Seq<ItemV> {
    v.map_values(|q: QueueItem| item_view(q))
}

/// The prompts of one session.
pub struct PromptQueue {
    running: bool,
    items: Vec<QueueItem>,
    resume: Option<QueueItem>,
}

/// The queue as plain values: whether a prompt runs, the waiting prompts in
/// order, and the one to go next.
#[verifier::ext_equal]
pub struct QueueView {
    pub running: bool,
    pub items: Seq<ItemV>,
    pub resume: Option<ItemV>,
}

impl PromptQueue {
    pub closed spec fn view(&self) -> QueueView {
        QueueView {
            running: self.running,
            items: items_view(self.items@),
            resume: match self.resume {
                Some(q) => Some(item_view(q)),
                None => None,
            },
        }
    }
}

/// What to do with a prompt the user sends.
pub enum Submitted {
    /// A prompt is running: it waits at the end of the queue.
    Queued,
    /// Nothing runs: send it now.
    Start(QueueItem),
}

/// What to do when the user sends a waiting prompt at once.
pub enum SendNow {
    /// No waiting prompt has the id.
    Missing,
    /// A prompt is running: cancel it; the chosen one goes next.
    CancelRunning,
    /// Nothing runs: send the chosen one now.
    Start(QueueItem),
}

/// A waiting prompt that is not there.
#[derive(Debug, Clone, Copy, PartialEq, Eq, Structural)]
pub struct ItemNotFound;

/// The position of the first prompt with the id.
pub open spec fn first_id(items: Seq<ItemV>, id: Seq<char>) -> Option<int>
    decreases items.len(),
{
    if items.len() == 0 {
        None
    } else if items[0].0 == id {
        Some(0)
    } else {
        match first_id(items.drop_first(), id) {
            Some(i) => Some(i + 1),
            None => None,
        }
    }
}

proof fn lemma_first_id(items: Seq<ItemV>, id: Seq<char>)
    ensures
        match first_id(items, id) {
            Some(i) => 0 <= i < items.len() && items[i].0 == id && forall|j: int| 0 <= j < i ==> items[j].0 != id,
            None => forall|j: int| 0 <= j < items.len() ==> items[j].0 != id,
        },
    decreases items.len(),
{
    if items.len() > 0 && items[0].0 != id {
        lemma_first_id(items.drop_first(), id);
        assert forall|j: int| 0 < j < items.len() implies items[j] == items.drop_first()[j - 1] by {}
    }
}

/// Whether a waiting prompt is not the one with the id.
pub open spec fn other_than(id: Seq<char>) -> spec_fn(ItemV) -> bool {
    |q: ItemV| q.0 != id
}

/// The waiting prompts without those with the id.
pub open spec fn without_id(items: Seq<ItemV>, id: Seq<char>) -> Seq<ItemV> {
    items.filter(other_than(id))
}

/// A prompt sent: it waits at the end of the queue where one runs;
/// either way, the session runs.
pub open spec fn submit_spec(v: QueueView, item: ItemV) -> QueueView {
    QueueView {
        running: true,
        items: if v.running {
            v.items.push(item)
        } else {
            v.items
        },
        resume: v.resume,
    }
}

/// The running prompt ended.
pub open spec fn finish_spec(v: QueueView) -> QueueView {
    QueueView { running: false, items: v.items, resume: v.resume }
}

/// What goes next where nothing runs: the prompt put aside, else the first
/// waiting one; the queue after, and the prompt started.
pub open spec fn drain_spec(v: QueueView) -> (QueueView, Option<ItemV>) {
    if v.running {
        (v, None)
    } else {
        match v.resume {
            Some(q) => (QueueView { running: true, items: v.items, resume: None }, Some(q)),
            None => if v.items.len() > 0 {
                (QueueView { running: true, items: v.items.drop_first(), resume: None }, Some(v.items[0]))
            } else {
                (v, None)
            },
        }
    }
}

/// A waiting prompt sent at once: it leaves the queue and goes next (put
/// aside where a prompt runs, started where none does).
pub open spec fn send_now_spec(v: QueueView, id: Seq<char>) -> QueueView {
    match first_id(v.items, id) {
        None => v,
        Some(i) => if v.running {
            QueueView { running: true, items: v.items.remove(i), resume: Some(v.items[i]) }
        } else {
            QueueView { running: true, items: v.items.remove(i), resume: v.resume }
        },
    }
}

pub open spec fn opt_item_view(o: Option<QueueItem>) -> Option<ItemV> {
    match o {
        Some(q) => Some(item_view(q)),
        None => None,
    }
}

fn copy_item(q: &QueueItem) -> (r: QueueItem)
    ensures
        item_view(r) == item_view(*q),
{
    QueueItem { id: q.id.clone(), text: q.text.clone(), files: copy_files(&q.files) }
}

impl PromptQueue {
    /// An idle session with nothing waiting.
    pub fn new() -> (r: PromptQueue)
        ensures
            r@.running == false,
            r@.items == Seq::<ItemV>::empty(),
            r@.resume is None,
    {
        let r = PromptQueue { running: false, items: Vec::new(), resume: None };
        proof {
            assert(items_view(r.items@) =~= Seq::<ItemV>::empty());
        }
        r
    }

    /// Whether a prompt runs.
    pub fn is_running(&self) -> (r: bool)
        ensures
            r == self@.running,
    {
        self.running
    }

    /// The waiting prompts, in order.
    pub fn list(&self) -> (r: Vec<QueueItem>)
        ensures
            items_view(r@) == self@.items,
    {
        let mut out: Vec<QueueItem> = Vec::new();
        let mut i: usize = 0;
        while i < self.items.len()
            invariant
                i <= self.items.len(),
                items_view(out@) == items_view(self.items@).take(i as int),
            decreases self.items.len() - i,
        {
            let q = copy_item(&self.items[i]);
            let ghost before = out@;
            out.push(q);
            proof {
                assert(items_view(out@) =~= items_view(before).push(item_view(q)));
                assert(items_view(self.items@).take(i + 1) =~= items_view(self.items@).take(i as int).push(
                    item_view(self.items@[i as int]),
                ));
            }
            i += 1;
        }
        proof {
            assert(items_view(self.items@).take(self.items.len() as int) =~= items_view(self.items@));
        }
        out
    }

    /// A prompt the user sends: it waits where one runs; else it starts, and
    /// the session runs.
    pub fn submit(&mut self, item: QueueItem) -> (r: Submitted)
        ensures
            final(self)@ == submit_spec(old(self)@, item_view(item)),
            r is Queued <==> old(self)@.running,
            r matches Submitted::Start(q) ==> item_view(q) == item_view(item),
    {
        if self.running {
            let ghost before = self.items@;
            self.items.push(item);
            proof {
                assert(items_view(self.items@) =~= items_view(before).push(item_view(item)));
            }
            Submitted::Queued
        } else {
            self.running = true;
            Submitted::Start(item)
        }
    }

    /// The running prompt ended (answered, failed or cancelled).
    pub fn finish(&mut self)
        ensures
            final(self)@ == finish_spec(old(self)@),
    {
        self.running = false;
    }

    /// What goes next once nothing runs: the prompt put aside, else the
    /// first waiting one; it starts, and the session runs. Nothing while a
    /// prompt runs or nothing waits.
    pub fn drain(&mut self) -> (r: Option<QueueItem>)
        ensures
            (final(self)@, opt_item_view(r)) == drain_spec(old(self)@),
    {
        if self.running {
            return None;
        }
        match self.resume.take() {
            Some(q) => {
                self.running = true;
                Some(q)
            },
            None => {
                if self.items.len() == 0 {
                    return None;
                }
                let ghost before = self.items@;
                let q = self.items.remove(0);
                proof {
                    assert(items_view(self.items@) =~= items_view(before).drop_first());
                }
                self.running = true;
                Some(q)
            },
        }
    }

    fn position(&self, id: &str) -> (r: Option<usize>)
        ensures
            match r {
                Some(i) => first_id(self@.items, id@) == Some(i as int),
                None => first_id(self@.items, id@) is None,
            },
    {
        proof {
            lemma_first_id(self@.items, id@);
        }
        let mut i: usize = 0;
        while i < self.items.len()
            invariant
                i <= self.items.len(),
                forall|j: int| 0 <= j < i ==> #[trigger] self.items@[j].id@ != id@,
            decreases self.items.len() - i,
        {
            if str_eq(self.items[i].id.as_str(), id) {
                proof {
                    lemma_first_id(self@.items, id@);
                    let f = first_id(self@.items, id@);
                    if f != Some(i as int) {
                        match f {
                            Some(k) => {
                                if k < i {
                                    assert(self.items@[k].id@ != id@);
                                }
                                assert(items_view(self.items@)[i as int].0 == id@);
                            },
                            None => {
                                assert(items_view(self.items@)[i as int].0 == id@);
                            },
                        }
                    }
                }
                return Some(i);
            }
            i += 1;
        }
        proof {
            lemma_first_id(self@.items, id@);
            assert forall|j: int| 0 <= j < self@.items.len() implies self@.items[j].0 != id@ by {
                assert(self.items@[j].id@ != id@);
            }
            match first_id(self@.items, id@) {
                Some(k) => {
                    assert(self@.items[k].0 != id@);
                },
                None => {},
            }
        }
        None
    }

    /// A waiting prompt's text changed: the first with the id.
    pub fn patch(&mut self, id: &str, text: String) -> (r: Result<(), ItemNotFound>)
        ensures
            match first_id(old(self)@.items, id@) {
                Some(i) => r is Ok && final(self)@ == (QueueView {
                    running: old(self)@.running,
                    items: old(self)@.items.update(i, (old(self)@.items[i].0, text@, old(self)@.items[i].2)),
                    resume: old(self)@.resume,
                }),
                None => r is Err && final(self)@ == old(self)@,
            },
    {
        match self.position(id) {
            Some(i) => {
                proof {
                    lemma_first_id(self@.items, id@);
                }
                let ghost before = self.items@;
                let old_item = self.items.remove(i);
                let q = QueueItem { id: old_item.id, text, files: old_item.files };
                self.items.insert(i, q);
                proof {
                    assert(self.items@ =~= before.update(i as int, q));
                    assert(items_view(self.items@) =~= items_view(before).update(i as int, item_view(q)));
                }
                Ok(())
            },
            None => Err(ItemNotFound),
        }
    }

    /// Waiting prompts deleted: all with the id; an error where none has it.
    pub fn delete(&mut self, id: &str) -> (r: Result<(), ItemNotFound>)
        ensures
            first_id(old(self)@.items, id@) is None ==> r is Err && final(self)@ == old(self)@,
            first_id(old(self)@.items, id@) is Some ==> r is Ok && final(self)@ == (QueueView {
                running: old(self)@.running,
                items: without_id(old(self)@.items, id@),
                resume: old(self)@.resume,
            }),
    {
        proof {
            lemma_first_id(self@.items, id@);
        }
        if self.position(id).is_none() {
            return Err(ItemNotFound);
        }
        let ghost orig = items_view(self.items@);
        let mut kept: Vec<QueueItem> = Vec::new();
        let mut rest: Vec<QueueItem> = Vec::new();
        std::mem::swap(&mut rest, &mut self.items);
        let ghost all = rest@;
        assert(items_view(all) == orig);
        assert(all.len() == rest.len());
        let mut i: usize = 0;
        proof {
            reveal(Seq::filter);
            assert(orig.take(0).filter(other_than(id@)) =~= Seq::<ItemV>::empty());
            assert(items_view(kept@) =~= Seq::<ItemV>::empty());
        }
        while rest.len() > 0
            invariant
                rest@ == all.skip(i as int),
                i <= all.len(),
                all.len() <= usize::MAX,
                items_view(all) == orig,
                items_view(kept@) == orig.take(i as int).filter(other_than(id@)),
            decreases rest.len(),
        {
            assert(rest@.len() == all.len() - i);
            let q = rest.remove(0);
            proof {
                assert(q == all[i as int]);
                assert(all.skip(i as int).drop_first() =~= all.skip(i + 1));
                assert(orig.take(i + 1) =~= orig.take(i as int).push(orig[i as int]));
                assert(orig[i as int] == item_view(q));
                reveal(Seq::filter);
                assert(orig.take(i + 1).drop_last() =~= orig.take(i as int));
                assert(orig.take(i + 1).last() == orig[i as int]);
            }
            if !str_eq(q.id.as_str(), id) {
                let ghost before = kept@;
                kept.push(q);
                proof {
                    assert(items_view(kept@) =~= items_view(before).push(item_view(q)));
                }
            }
            i += 1;
        }
        proof {
            assert(all.skip(i as int).len() == 0);
            assert(orig.take(i as int) =~= orig);
        }
        self.items = kept;
        Ok(())
    }

    /// A waiting prompt the user sends at once (the first with the id): it
    /// leaves the queue; where a prompt runs, it is put aside to go next and
    /// the running one is to be cancelled; else it starts.
    pub fn send_now(&mut self, id: &str) -> (r: SendNow)
        ensures
            final(self)@ == send_now_spec(old(self)@, id@),
            first_id(old(self)@.items, id@) is None <==> r is Missing,
            r is CancelRunning <==> (first_id(old(self)@.items, id@) is Some && old(self)@.running),
            r matches SendNow::Start(q) ==> !old(self)@.running && Some(item_view(q)) == (match first_id(
                old(self)@.items,
                id@,
            ) {
                Some(i) => Some(old(self)@.items[i]),
                None => None,
            }),
    {
        match self.position(id) {
            None => SendNow::Missing,
            Some(i) => {
                proof {
                    lemma_first_id(self@.items, id@);
                }
                let ghost before = self.items@;
                let q = self.items.remove(i);
                proof {
                    assert(items_view(self.items@) =~= items_view(before).remove(i as int));
                }
                if self.running {
                    self.resume = Some(q);
                    SendNow::CancelRunning
                } else {
                    self.running = true;
                    SendNow::Start(q)
                }
            },
        }
    }

    /// The queue grok reports for the session replaces the one kept.
    pub fn replace_items(&mut self, items: Vec<QueueItem>)
        ensures
            final(self)@ == (QueueView { running: old(self)@.running, items: items_view(items@), resume: old(self)@.resume }),
    {
        self.items = items;
    }
}


/// Prompts sent while one runs start, once it ends, in the order they were
/// sent: the first waiting prompt goes, and the rest keep waiting in order.
pub proof fn law_waiting_prompts_go_in_order(v: QueueView, item: ItemV)
    requires
        v.running,
        v.resume is None,
    ensures
        ({
            let (after, next) = drain_spec(finish_spec(submit_spec(v, item)));
            &&& next == Some(v.items.push(item)[0])
            &&& after.items == v.items.push(item).drop_first()
            &&& after.running
        }),
{
}

/// A waiting prompt sent at once while another runs goes next: once the
/// running one ends, it starts before anything that was waiting.
pub proof fn law_sent_now_goes_next(v: QueueView, id: Seq<char>)
    requires
        v.running,
        first_id(v.items, id) is Some,
    ensures
        drain_spec(finish_spec(send_now_spec(v, id))).1 == Some(v.items[first_id(v.items, id)->Some_0]),
{
}

/// After a delete, no waiting prompt has the id, and the others keep their order.
pub proof fn law_delete_leaves_no_such_prompt(items: Seq<ItemV>, id: Seq<char>)
    ensures
        forall|j: int| 0 <= j < without_id(items, id).len() ==> (#[trigger] without_id(items, id)[j]).0 != id,
{
    assert forall|j: int| 0 <= j < without_id(items, id).len() implies (#[trigger] without_id(items, id)[j]).0
        != id by {
        items.lemma_filter_pred(other_than(id), j);
    }
}

} // verus!
