//! The order in which conversions are handed to the workers: the smallest
//! source first.

use crate::config::convert::{task_views, ConvertTask, ConvertTaskView};
use vstd::prelude::*;

verus! {

/// The tasks whose source has `size` bytes.
pub open spec fn of_size(size: u64) -> spec_fn(ConvertTaskView) -> bool {
    |t: ConvertTaskView| t.source_size == size
}

/// No task comes before one with a smaller source.
pub open spec fn ascending(tasks: Seq<ConvertTaskView>) -> bool {
    forall|i: int, j: int| 0 <= i <= j < tasks.len() ==> tasks[i].source_size <= tasks[j].source_size
}

/// `order` holds the tasks of `tasks` by ascending source size, those of
/// one size in the order in which `tasks` has them.
pub open spec fn is_dispatch_order(tasks: Seq<ConvertTaskView>, order: Seq<ConvertTaskView>) -> bool {
    &&& ascending(order)
    &&& order.len() == tasks.len()
    &&& forall|size: u64| #[trigger] order.filter(of_size(size)) == tasks.filter(of_size(size))
}

/// Putting `x` behind the tasks that are not larger, where all that follow
/// are larger, keeps the order and adds `x` as the last of its size.
proof fn lemma_insert_keeps_order(
    done: Seq<ConvertTaskView>,
    order: Seq<ConvertTaskView>,
    x: ConvertTaskView,
    pos: int,
)
    requires
        is_dispatch_order(done, order),
        0 <= pos <= order.len(),
        forall|k: int| 0 <= k < pos ==> order[k].source_size <= x.source_size,
        forall|k: int| pos <= k < order.len() ==> order[k].source_size > x.source_size,
    ensures
        is_dispatch_order(done.push(x), order.insert(pos, x)),
{
    reveal(Seq::filter);
    let next = order.insert(pos, x);
    let front = order.subrange(0, pos);
    let back = order.subrange(pos, order.len() as int);
    assert(order =~= front + back);
    assert(next =~= front.push(x) + back);
    assert forall|size: u64| #[trigger]
        next.filter(of_size(size)) == done.push(x).filter(of_size(size)) by {
        let p = of_size(size);
        assert(order.filter(p) == done.filter(p));
        Seq::filter_distributes_over_add(front, back, p);
        Seq::filter_distributes_over_add(front.push(x), back, p);
        assert(front.push(x).drop_last() =~= front);
        assert(done.push(x).drop_last() =~= done);
        if size == x.source_size {
            assert forall|k: int| 0 <= k < back.len() implies !p(#[trigger] back[k]) by {
                assert(back[k] == order[pos + k]);
            }
            back.lemma_all_neg_filter_empty(p);
            assert(back.filter(p) =~= Seq::<ConvertTaskView>::empty());
            assert(next.filter(p) =~= done.push(x).filter(p));
        } else {
            assert(next.filter(p) =~= done.push(x).filter(p));
        }
    }
    assert forall|i: int, j: int| 0 <= i <= j < next.len() implies next[i].source_size
        <= next[j].source_size by {
        if i < pos && j > pos {
            assert(next[j] == order[j - 1]);
        } else if i > pos {
            assert(next[i] == order[i - 1]);
            assert(next[j] == order[j - 1]);
        }
    }
}

/// The tasks in the order in which they are handed out: by ascending source
/// size, tasks of equal size in the order given.
pub fn dispatch_order(tasks: &Vec<ConvertTask>) -> (r: Vec<ConvertTask>)
    ensures
        is_dispatch_order(task_views(tasks@), task_views(r@)),
{
    let ghost all = task_views(tasks@);
    let mut order: Vec<ConvertTask> = Vec::new();
    let n = tasks.len();
    let mut i: usize = 0;
    proof {
        assert(all.take(0) =~= Seq::<ConvertTaskView>::empty());
        assert(task_views(order@) =~= Seq::<ConvertTaskView>::empty());
    }
    while i < n
        invariant
            n == tasks@.len(),
            i <= n,
            all == task_views(tasks@),
            is_dispatch_order(all.take(i as int), task_views(order@)),
        decreases n - i,
    {
        let task = tasks[i].duplicate();
        let mut pos = order.len();
        while pos > 0 && order[pos - 1].source_size > task.source_size
            invariant
                pos <= order@.len(),
                forall|k: int| pos <= k < order@.len() ==> order@[k].source_size > task.source_size,
                ascending(task_views(order@)),
            decreases pos,
        {
            pos = pos - 1;
        }
        proof {
            let views = task_views(order@);
            assert forall|k: int| 0 <= k < pos implies views[k].source_size
                <= task@.source_size by {
                if pos > 0 {
                    assert(views[k].source_size <= views[pos - 1].source_size);
                }
            }
            assert forall|k: int| pos <= k < views.len() implies views[k].source_size
                > task@.source_size by {
                assert(views[k] == order@[k]@);
            }
            lemma_insert_keeps_order(all.take(i as int), views, task@, pos as int);
            assert(all.take(i + 1) =~= all.take(i as int).push(task@));
        }
        let ghost before = task_views(order@);
        order.insert(pos, task);
        assert(task_views(order@) =~= before.insert(pos as int, task@));
        i = i + 1;
    }
    assert(all.take(n as int) =~= all);
    order
}

} // verus!
