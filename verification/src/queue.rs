//! The image queue of one output: the paths of the images that a slideshow
//! cycles through, the next one to show at the front.

use std::collections::VecDeque;
use vstd::prelude::*;
use crate::paths::{path_key, same_path};

verus! {

/// The components of the path `s`: two paths name the same file when their
/// keys are equal.
pub open spec fn key(s: String) -> Seq<Seq<char>> {
    path_key(s@)
}

/// Some path of `q` has the components `p`.
pub open spec fn has_path(q: Seq<String>, p: Seq<Seq<char>>) -> bool {
    exists|i: int| 0 <= i < q.len() && key(#[trigger] q[i]) == p
}

/// `k` is the first position of `q` whose path has the components `p`.
pub open spec fn first_at(q: Seq<String>, p: Seq<Seq<char>>, k: int) -> bool {
    &&& 0 <= k < q.len()
    &&& key(q[k]) == p
    &&& forall|j: int| 0 <= j < k ==> key(#[trigger] q[j]) != p
}

/// No two paths of `q` name the same file.
pub open spec fn distinct_paths(q: Seq<String>) -> bool {
    forall|i: int, j: int| 0 <= i < j < q.len() ==> key(#[trigger] q[i]) != key(#[trigger] q[j])
}

/// `q` turned left by `k` places: its `k`-th item first, its first `k` items last.
pub open spec fn rotate(q: Seq<String>, k: int) -> Seq<String> {
    q.skip(k) + q.take(k)
}

/// The queue after each path of `files` that it does not yet hold has been
/// appended, in the order of `files`.
pub open spec fn enqueued(q: Seq<String>, files: Seq<String>) -> Seq<String>
    decreases files.len(),
{
    if files.len() == 0 {
        q
    } else {
        let r = enqueued(q, files.drop_last());
        if has_path(r, key(files.last())) {
            r
        } else {
            r.push(files.last())
        }
    }
}

/// The queue without the paths that `removed` names, the others in their order.
pub open spec fn without(q: Seq<String>, removed: Seq<String>) -> Seq<String> {
    q.filter(kept_by(removed))
}

/// Whether a path is not named in `removed`.
pub open spec fn kept_by(removed: Seq<String>) -> spec_fn(String) -> bool {
    |s: String| !has_path(removed, key(s))
}

/// The first position of `queue` that holds a path naming the same file as
/// `path` (see `crate::paths`), if any.
pub fn find_path(queue: &VecDeque<String>, path: &String) -> (r: Option<usize>)
    ensures
        match r {
            Some(k) => first_at(queue@, key(*path), k as int),
            None => !has_path(queue@, key(*path)),
        },
{
    let n = queue.len();
    let mut i: usize = 0;
    while i < n
        invariant
            n == queue@.len(),
            i <= n,
            forall|j: int| 0 <= j < i ==> key(#[trigger] queue@[j]) != key(*path),
        decreases n - i,
    {
        if same_path(&queue[i], path) {
            return Some(i);
        }
        i = i + 1;
    }
    None
}

/// Whether `queue` holds a path naming the same file as `path`.
pub fn holds_path(queue: &VecDeque<String>, path: &String) -> (r: bool)
    ensures
        r == has_path(queue@, key(*path)),
{
    match find_path(queue, path) {
        Some(_) => true,
        None => false,
    }
}

/// Moves the images ahead of the first path naming the same file as `path`
/// to the back, so that the slideshow resumes with it. A queue without such a
/// path is left as it is.
pub fn resume_from(queue: &mut VecDeque<String>, path: &String)
    ensures
        forall|k: int| first_at(old(queue)@, key(*path), k) ==> final(queue)@ == rotate(old(queue)@, k),
        !has_path(old(queue)@, key(*path)) ==> final(queue)@ == old(queue)@,
{
    let found = find_path(queue, path);
    let k = match found {
        Some(k) => k,
        None => {
            return ;
        },
    };
    let ghost q0 = queue@;
    let mut moved: usize = 0;
    loop
        invariant
            first_at(q0, key(*path), k as int),
            moved <= k,
            queue@ == q0.skip(moved as int) + q0.take(moved as int),
        ensures
            queue@ == rotate(q0, k as int),
        decreases k - moved,
    {
        let ghost before = queue@;
        match queue.pop_front() {
            Some(p) => {
                assert(p == q0[moved as int]);
                if same_path(&p, path) {
                    assert(moved == k);
                    queue.push_front(p);
                    assert(queue@ =~= before);
                    break;
                }
                queue.push_back(p);
                assert(queue@ =~= q0.skip(moved + 1) + q0.take(moved + 1));
                moved = moved + 1;
            },
            None => {
                assert(false);
                break;
            },
        }
    }
    proof {
        assert forall|j: int| first_at(q0, key(*path), j) implies j == k by {
            lemma_first_at_unique(q0, key(*path), j, k as int);
        }
    }
}

/// A first position of `p` in `q` is the only one.
pub proof fn lemma_first_at_unique(q: Seq<String>, p: Seq<Seq<char>>, a: int, b: int)
    requires
        first_at(q, p, a),
        first_at(q, p, b),
    ensures
        a == b,
{
    if a < b {
        assert(key(q[a]) != p);
    } else if b < a {
        assert(key(q[b]) != p);
    }
}

/// Takes the image at the front of the queue and moves it to the back: the
/// next image of the slideshow. An empty queue gives nothing and stays empty.
pub fn advance(queue: &mut VecDeque<String>) -> (next: Option<String>)
    ensures
        old(queue)@.len() == 0 ==> next is None && final(queue)@ == old(queue)@,
        old(queue)@.len() > 0 ==> next == Some(old(queue)@[0]) && final(queue)@ == rotate(
            old(queue)@,
            1,
        ),
{
    let ghost q0 = queue@;
    match queue.pop_front() {
        Some(p) => {
            let shown = p.clone();
            queue.push_back(p);
            assert(queue@ =~= rotate(q0, 1));
            Some(shown)
        },
        None => None,
    }
}

/// Appends each path of `files` whose file the queue does not hold yet, in order,
/// so that new files do not jump the order of the slideshow.
pub fn enqueue_files(queue: &mut VecDeque<String>, files: &Vec<String>)
    ensures
        final(queue)@ == enqueued(old(queue)@, files@),
{
    let ghost q0 = queue@;
    let n = files.len();
    let mut i: usize = 0;
    assert(files@.take(0) =~= Seq::<String>::empty());
    while i < n
        invariant
            n == files@.len(),
            i <= n,
            queue@ == enqueued(q0, files@.take(i as int)),
        decreases n - i,
    {
        let f = &files[i];
        assert(files@.take(i + 1).drop_last() =~= files@.take(i as int));
        assert(files@.take(i + 1).last() == files@[i as int]);
        if !holds_path(queue, f) {
            queue.push_back(f.clone());
        }
        i = i + 1;
    }
    assert(files@.take(n as int) =~= files@);
}

/// Drops every path naming a file that `removed` names from the queue, keeping the order
/// of the others.
pub fn remove_files(queue: &mut VecDeque<String>, removed: &Vec<String>)
    ensures
        final(queue)@ == without(old(queue)@, removed@),
{
    let ghost q0 = queue@;
    let ghost keep = kept_by(removed@);
    let mut kept: VecDeque<String> = VecDeque::new();
    let n = queue.len();
    let mut i: usize = 0;
    assert(q0.take(0) =~= Seq::<String>::empty());
    while i < n
        invariant
            n == q0.len(),
            queue@ == q0,
            i <= n,
            keep == kept_by(removed@),
            kept@ == q0.take(i as int).filter(keep),
        decreases n - i,
    {
        let p = &queue[i];
        let mut named = false;
        let m = removed.len();
        let mut j: usize = 0;
        while j < m
            invariant
                m == removed@.len(),
                j <= m,
                named == (exists|t: int| 0 <= t < j && key(#[trigger] removed@[t]) == key(*p)),
            decreases m - j,
        {
            if same_path(&removed[j], p) {
                named = true;
            }
            j = j + 1;
        }
        proof {
            assert(q0.take(i + 1) =~= q0.take(i as int).push(q0[i as int]));
            q0.take(i as int).lemma_filter_push(q0[i as int], keep);
            assert(*p == q0[i as int]);
            assert(named == has_path(removed@, key(*p)));
            assert(keep(q0[i as int]) == !named);
        }
        if !named {
            kept.push_back(p.clone());
        }
        i = i + 1;
    }
    assert(q0.take(n as int) =~= q0);
    *queue = kept;
}

/// The queue after `m` steps of the slideshow, each of which moves the front
/// image to the back.
pub open spec fn advanced(q: Seq<String>, m: nat) -> Seq<String>
    decreases m,
{
    if m == 0 || q.len() == 0 {
        q
    } else {
        rotate(advanced(q, (m - 1) as nat), 1)
    }
}

/// Turning a queue by `a` places and then by one more is turning it by `a + 1`.
pub proof fn lemma_rotate_step(q: Seq<String>, a: int)
    requires
        0 <= a < q.len(),
    ensures
        rotate(rotate(q, a), 1) == rotate(q, a + 1),
{
    let r = rotate(q, a);
    assert(rotate(r, 1) =~= rotate(q, a + 1));
}

/// A slideshow over a queue of `n` images shows them one after the other in
/// queue order: after `m <= n` steps the queue is the starting one turned by
/// `m` places, so the image shown at step `m` (counting from zero) is the
/// `m`-th of the queue, and after `n` steps the queue is back where it started.
pub proof fn law_slideshow_cycles(q: Seq<String>, m: nat)
    requires
        m <= q.len(),
    ensures
        advanced(q, m) == rotate(q, m as int),
        m < q.len() ==> advanced(q, m)[0] == q[m as int],
        m == q.len() ==> advanced(q, m) == q,
    decreases m,
{
    if q.len() == 0 || m == 0 {
        assert(rotate(q, 0) =~= q);
    } else {
        law_slideshow_cycles(q, (m - 1) as nat);
        lemma_rotate_step(q, m - 1);
    }
    if m == q.len() {
        assert(rotate(q, m as int) =~= q);
    }
}

/// Turning a queue keeps its images: the same multiset of paths.
pub proof fn law_rotate_keeps_images(q: Seq<String>, k: int)
    requires
        0 <= k <= q.len(),
    ensures
        rotate(q, k).to_multiset() == q.to_multiset(),
        rotate(q, k).len() == q.len(),
{
    vstd::seq_lib::lemma_seq_union_to_multiset_commutative(q.skip(k), q.take(k));
    assert(q.take(k) + q.skip(k) =~= q);
}

/// Adding files keeps the queue as it was at the front and only appends.
pub proof fn law_enqueue_appends(q: Seq<String>, files: Seq<String>)
    ensures
        q.len() <= enqueued(q, files).len() <= q.len() + files.len(),
        enqueued(q, files).take(q.len() as int) == q,
    decreases files.len(),
{
    if files.len() == 0 {
        assert(q.take(q.len() as int) =~= q);
    } else {
        law_enqueue_appends(q, files.drop_last());
        let r = enqueued(q, files.drop_last());
        assert(r.push(files.last()).take(q.len() as int) =~= r.take(q.len() as int));
    }
}

/// After adding files, the queue holds a path exactly when it held it before
/// or the path is one of the added files.
pub proof fn law_enqueue_membership(q: Seq<String>, files: Seq<String>, p: Seq<Seq<char>>)
    ensures
        has_path(enqueued(q, files), p) <==> (has_path(q, p) || has_path(files, p)),
    decreases files.len(),
{
    if files.len() > 0 {
        let init = files.drop_last();
        law_enqueue_membership(q, init, p);
        let r = enqueued(q, init);
        if has_path(files, p) && !has_path(init, p) {
            assert(key(files.last()) == p) by {
                let i = choose|i: int| 0 <= i < files.len() && key(#[trigger] files[i]) == p;
                if i < files.len() - 1 {
                    assert(init[i] == files[i]);
                }
            }
        }
        if has_path(init, p) {
            let i = choose|i: int| 0 <= i < init.len() && key(#[trigger] init[i]) == p;
            assert(files[i] == init[i]);
        }
        if !has_path(r, key(files.last())) {
            let e = r.push(files.last());
            if has_path(r, p) {
                let i = choose|i: int| 0 <= i < r.len() && key(#[trigger] r[i]) == p;
                assert(e[i] == r[i]);
            }
            if has_path(e, p) {
                let i = choose|i: int| 0 <= i < e.len() && key(#[trigger] e[i]) == p;
                if i < r.len() {
                    assert(e[i] == r[i]);
                }
            }
            assert(e[r.len() as int] == files.last());
        }
        assert(files[files.len() - 1] == files.last());
    }
}

/// Adding files never makes a path appear twice in a queue that held each
/// path once.
pub proof fn law_enqueue_distinct(q: Seq<String>, files: Seq<String>)
    requires
        distinct_paths(q),
    ensures
        distinct_paths(enqueued(q, files)),
    decreases files.len(),
{
    if files.len() > 0 {
        law_enqueue_distinct(q, files.drop_last());
        let r = enqueued(q, files.drop_last());
        if !has_path(r, key(files.last())) {
            let e = r.push(files.last());
            assert forall|i: int, j: int| 0 <= i < j < e.len() implies key(#[trigger] e[i]) != key(#[trigger] e[j]) by {
                if j == r.len() {
                    assert(e[i] == r[i]);
                    assert(!has_path(r, key(files.last())));
                } else {
                    assert(e[i] == r[i] && e[j] == r[j]);
                }
            }
        }
    }
}

/// Adding the same files twice is the same as adding them once.
pub proof fn law_enqueue_idempotent(q: Seq<String>, files: Seq<String>)
    ensures
        enqueued(enqueued(q, files), files) == enqueued(q, files),
{
    let e = enqueued(q, files);
    assert forall|i: int| 0 <= i < files.len() implies has_path(e, key(#[trigger] files[i])) by {
        law_enqueue_membership(q, files, key(files[i]));
    }
    lemma_enqueue_held(e, files);
}

/// Adding files that the queue already holds leaves it unchanged.
proof fn lemma_enqueue_held(q: Seq<String>, files: Seq<String>)
    requires
        forall|i: int| 0 <= i < files.len() ==> has_path(q, key(#[trigger] files[i])),
    ensures
        enqueued(q, files) == q,
    decreases files.len(),
{
    if files.len() > 0 {
        let init = files.drop_last();
        assert forall|i: int| 0 <= i < init.len() implies has_path(q, key(#[trigger] init[i])) by {
            assert(init[i] == files[i]);
        }
        lemma_enqueue_held(q, init);
        assert(has_path(q, key(files[files.len() - 1])));
    }
}

/// After removing paths, the queue holds none of them, and it holds each
/// other path exactly when it held it before.
pub proof fn law_remove_membership(q: Seq<String>, removed: Seq<String>, p: Seq<Seq<char>>)
    ensures
        has_path(removed, p) ==> !has_path(without(q, removed), p),
        !has_path(removed, p) ==> (has_path(without(q, removed), p) <==> has_path(q, p)),
{
    let w = without(q, removed);
    let keep = kept_by(removed);
    if has_path(w, p) {
        let i = choose|i: int| 0 <= i < w.len() && key(#[trigger] w[i]) == p;
        q.lemma_filter_pred(keep, i);
        assert(w.contains(w[i]));
        q.lemma_filter_contains_rev(keep, w[i]);
        let j = choose|j: int| 0 <= j < q.len() && q[j] == w[i];
        assert(key(q[j]) == p);
    }
    if !has_path(removed, p) && has_path(q, p) {
        let i = choose|i: int| 0 <= i < q.len() && key(#[trigger] q[i]) == p;
        assert(keep(q[i]));
        q.lemma_filter_contains(keep, i);
        let j = choose|j: int| 0 <= j < w.len() && w[j] == q[i];
        assert(key(w[j]) == p);
    }
}

/// Resuming from a path puts it at the front of the queue and keeps the images.
pub proof fn law_resume_fronts(q: Seq<String>, p: Seq<Seq<char>>, k: int)
    requires
        first_at(q, p, k),
    ensures
        key(rotate(q, k)[0]) == p,
        rotate(q, k).to_multiset() == q.to_multiset(),
{
    law_rotate_keeps_images(q, k);
}

/// Filtering keeps a sequence whose items all pass, and empties one whose
/// items all fail.
proof fn lemma_filter_all_or_none(s: Seq<String>, pred: spec_fn(String) -> bool)
    ensures
        (forall|i: int| 0 <= i < s.len() ==> pred(#[trigger] s[i])) ==> s.filter(pred) == s,
        (forall|i: int| 0 <= i < s.len() ==> !pred(#[trigger] s[i])) ==> s.filter(pred).len() == 0,
    decreases s.len(),
{
    if s.len() > 0 {
        let init = s.drop_last();
        lemma_filter_all_or_none(init, pred);
        assert(init.push(s.last()) =~= s);
        init.lemma_filter_push(s.last(), pred);
        assert(s.last() == s[s.len() - 1]);
        if forall|i: int| 0 <= i < s.len() ==> pred(#[trigger] s[i]) {
            assert forall|i: int| 0 <= i < init.len() implies pred(#[trigger] init[i]) by {
                assert(init[i] == s[i]);
            }
        }
        if forall|i: int| 0 <= i < s.len() ==> !pred(#[trigger] s[i]) {
            assert forall|i: int| 0 <= i < init.len() implies !pred(#[trigger] init[i]) by {
                assert(init[i] == s[i]);
            }
        }
    } else {
        assert(s.filter(pred) =~= s) by {
            reveal(Seq::filter);
        }
    }
}

/// What adding files appends comes from the files.
proof fn lemma_enqueue_from_files(q: Seq<String>, files: Seq<String>)
    ensures
        forall|j: int|
            q.len() <= j < enqueued(q, files).len() ==> has_path(
                files,
                key(#[trigger] enqueued(q, files)[j]),
            ),
    decreases files.len(),
{
    if files.len() > 0 {
        let init = files.drop_last();
        lemma_enqueue_from_files(q, init);
        law_enqueue_appends(q, init);
        let r = enqueued(q, init);
        let e = enqueued(q, files);
        assert forall|j: int| q.len() <= j < e.len() implies has_path(files, key(#[trigger] e[j])) by {
            if j < r.len() {
                assert(e[j] == r[j]);
                let t = choose|t: int| 0 <= t < init.len() && key(#[trigger] init[t]) == key(r[j]);
                assert(files[t] == init[t]);
            } else {
                assert(e[j] == files.last());
                assert(files[files.len() - 1] == files.last());
            }
        }
    }
}

/// Files that appear and then disappear again leave the slideshow's queue as
/// it was, when the queue held none of them.
pub proof fn law_add_then_remove(q: Seq<String>, files: Seq<String>)
    requires
        forall|i: int| 0 <= i < q.len() ==> !has_path(files, key(#[trigger] q[i])),
    ensures
        without(enqueued(q, files), files) == q,
{
    let e = enqueued(q, files);
    law_enqueue_appends(q, files);
    lemma_enqueue_from_files(q, files);
    let extra = e.skip(q.len() as int);
    assert(e =~= q + extra);
    let keep = kept_by(files);
    Seq::filter_distributes_over_add(q, extra, keep);
    assert forall|i: int| 0 <= i < q.len() implies keep(#[trigger] q[i]) by {}
    assert forall|i: int| 0 <= i < extra.len() implies !keep(#[trigger] extra[i]) by {
        assert(extra[i] == e[q.len() + i]);
    }
    lemma_filter_all_or_none(q, keep);
    lemma_filter_all_or_none(extra, keep);
    assert(extra.filter(keep) =~= Seq::<String>::empty());
    assert(q + Seq::<String>::empty() =~= q);
}

/// Turning a queue keeps each path in it once.
pub proof fn law_rotate_distinct(q: Seq<String>, k: int)
    requires
        0 <= k <= q.len(),
        distinct_paths(q),
    ensures
        distinct_paths(rotate(q, k)),
{
    let r = rotate(q, k);
    let n = q.len();
    assert forall|i: int, j: int| 0 <= i < j < r.len() implies key(#[trigger] r[i]) != key(#[trigger] r[j]) by {
        let a = if i < n - k { i + k } else { i - (n - k) };
        let b = if j < n - k { j + k } else { j - (n - k) };
        assert(r[i] == q[a]);
        assert(r[j] == q[b]);
        assert(a != b);
        if a < b {
            assert(key(q[a]) != key(q[b]));
        } else {
            assert(key(q[b]) != key(q[a]));
        }
    }
}

/// Removing paths keeps each remaining path in the queue once.
pub proof fn law_remove_distinct(q: Seq<String>, removed: Seq<String>)
    requires
        distinct_paths(q),
    ensures
        distinct_paths(without(q, removed)),
    decreases q.len(),
{
    if q.len() > 0 {
        let init = q.drop_last();
        let keep = kept_by(removed);
        assert(distinct_paths(init)) by {
            assert forall|i: int, j: int| 0 <= i < j < init.len() implies key(#[trigger] init[i]) != key(#[trigger] init[j]) by {
                assert(init[i] == q[i] && init[j] == q[j]);
            }
        }
        law_remove_distinct(init, removed);
        assert(init.push(q.last()) =~= q);
        init.lemma_filter_push(q.last(), keep);
        if keep(q.last()) {
            let f = init.filter(keep);
            let e = f.push(q.last());
            assert forall|i: int, j: int| 0 <= i < j < e.len() implies key(#[trigger] e[i]) != key(#[trigger] e[j]) by {
                if j == f.len() {
                    assert(e[i] == f[i]);
                    assert(f.contains(f[i]));
                    init.lemma_filter_contains_rev(keep, f[i]);
                    let t = choose|t: int| 0 <= t < init.len() && init[t] == f[i];
                    assert(q[t] == init[t]);
                    assert(q[q.len() - 1] == q.last());
                    assert(key(q[t]) != key(q[q.len() - 1]));
                } else {
                    assert(e[i] == f[i] && e[j] == f[j]);
                }
            }
        }
    } else {
        assert(without(q, removed) =~= q) by {
            reveal(Seq::filter);
        }
    }
}

} // verus!
