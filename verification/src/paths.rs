//! When two paths name the same file: paths compare by their components, as
//! `std::path::Path` compares them on Unix. Repeated separators, a trailing
//! separator and `.` components other than a leading one do not count.
//!
//! Paths are held as text (`String`): two file names that give the same text
//! are the same path here.

use vstd::prelude::*;
use vstd::string::StrSliceExecFns;

verus! {

/// The components of `s` read so far: the finished ones (each ended by a
/// separator) and the one being read.
pub open spec fn scan(s: Seq<char>) -> (Seq<Seq<char>>, Seq<char>)
    decreases s.len(),
{
    if s.len() == 0 {
        (Seq::empty(), Seq::empty())
    } else {
        let (done, cur) = scan(s.drop_last());
        if s.last() == '/' {
            (done.push(cur), Seq::empty())
        } else {
            (done, cur.push(s.last()))
        }
    }
}

/// The text between the separators of `s`, empty texts included.
pub open spec fn parts(s: Seq<char>) -> Seq<Seq<char>> {
    scan(s).0.push(scan(s).1)
}

/// A part that is a component: not empty and not `.`.
pub open spec fn is_component(p: Seq<char>) -> bool {
    p.len() > 0 && p != seq!['.']
}

/// Whether a component is to be kept.
pub open spec fn component_filter() -> spec_fn(Seq<char>) -> bool {
    |p: Seq<char>| is_component(p)
}

/// How a path begins: 1 for the root (`/`), 2 for a leading current directory
/// (`.` alone or followed by a separator), 0 otherwise.
pub open spec fn lead_kind(s: Seq<char>) -> u8 {
    if s.len() > 0 && s[0] == '/' {
        1
    } else if s.len() > 0 && s[0] == '.' && (s.len() == 1 || s[1] == '/') {
        2
    } else {
        0
    }
}

/// The first components that the beginning of a path gives.
pub open spec fn lead(s: Seq<char>) -> Seq<Seq<char>> {
    if lead_kind(s) == 1 {
        seq![seq!['/']]
    } else if lead_kind(s) == 2 {
        seq![seq!['.']]
    } else {
        Seq::empty()
    }
}

/// The components of the path `s`, the root or leading `.` first.
pub open spec fn path_key(s: Seq<char>) -> Seq<Seq<char>> {
    lead(s) + parts(s).filter(component_filter())
}

/// The views of a sequence of character vectors.
pub open spec fn views(v: Seq<Vec<char>>) -> Seq<Seq<char>> {
    Seq::new(v.len(), |i: int| v[i]@)
}

/// How the path `s` begins.
fn lead_code(s: &str) -> (r: u8)
    ensures
        r == lead_kind(s@),
{
    let n = s.unicode_len();
    if n == 0 {
        return 0;
    }
    let c0 = s.get_char(0);
    if c0 == '/' {
        return 1;
    }
    if c0 == '.' {
        if n == 1 || s.get_char(1) == '/' {
            return 2;
        }
    }
    0
}

/// The components of `s` that follow its beginning.
fn components(s: &str) -> (r: Vec<Vec<char>>)
    ensures
        views(r@) == parts(s@).filter(component_filter()),
{
    let n = s.unicode_len();
    let ghost keep = component_filter();
    let mut done: Vec<Vec<char>> = Vec::new();
    let mut cur: Vec<char> = Vec::new();
    let mut i: usize = 0;
    assert(s@.take(0) =~= Seq::<char>::empty());
    assert(views(done@) =~= Seq::<Seq<char>>::empty().filter(keep)) by {
        reveal(Seq::filter);
    }
    while i < n
        invariant
            n == s@.len(),
            i <= n,
            keep == component_filter(),
            views(done@) == scan(s@.take(i as int)).0.filter(keep),
            cur@ == scan(s@.take(i as int)).1,
        decreases n - i,
    {
        let c = s.get_char(i);
        let ghost before = scan(s@.take(i as int));
        assert(s@.take(i + 1).drop_last() =~= s@.take(i as int));
        assert(s@.take(i + 1).last() == c);
        if c == '/' {
            let ghost prev = done@;
            proof {
                before.0.lemma_filter_push(cur@, keep);
            }
            if is_part(&cur) {
                done.push(cur);
                assert(views(done@) =~= views(prev).push(before.1));
            } else {
                assert(views(done@) =~= views(prev));
            }
            cur = Vec::new();
            assert(cur@ =~= Seq::<char>::empty());
        } else {
            cur.push(c);
        }
        i = i + 1;
    }
    assert(s@.take(n as int) =~= s@);
    let ghost fin = scan(s@);
    let ghost prev = done@;
    proof {
        fin.0.lemma_filter_push(fin.1, keep);
    }
    if is_part(&cur) {
        done.push(cur);
        assert(views(done@) =~= views(prev).push(fin.1));
    } else {
        assert(views(done@) =~= views(prev));
    }
    done
}

/// Whether the text `p` is a component.
fn is_part(p: &Vec<char>) -> (r: bool)
    ensures
        r == is_component(p@),
{
    if p.len() == 0 {
        return false;
    }
    if p.len() == 1 && p[0] == '.' {
        assert(p@ =~= seq!['.']);
        return false;
    }
    if p.len() == 1 {
        assert(p@[0] != seq!['.'][0]);
    }
    true
}

/// Whether two sequences of character vectors read the same.
fn same_texts(x: &Vec<Vec<char>>, y: &Vec<Vec<char>>) -> (r: bool)
    ensures
        r == (views(x@) == views(y@)),
{
    if x.len() != y.len() {
        assert(views(x@).len() != views(y@).len());
        return false;
    }
    let n = x.len();
    let mut i: usize = 0;
    while i < n
        invariant
            n == x@.len(),
            n == y@.len(),
            i <= n,
            forall|j: int| 0 <= j < i ==> x@[j]@ == y@[j]@,
        decreases n - i,
    {
        let a = &x[i];
        let b = &y[i];
        assert(views(x@)[i as int] == a@ && views(y@)[i as int] == b@);
        if a.len() != b.len() {
            assert(views(x@)[i as int] != views(y@)[i as int]);
            return false;
        }
        let m = a.len();
        let mut k: usize = 0;
        while k < m
            invariant
                m == a@.len(),
                m == b@.len(),
                k <= m,
                i < n,
                n == x@.len(),
                n == y@.len(),
                views(x@)[i as int] == a@,
                views(y@)[i as int] == b@,
                forall|j: int| 0 <= j < k ==> a@[j] == b@[j],
            decreases m - k,
        {
            if a[k] != b[k] {
                assert(a@[k as int] != b@[k as int]);
                assert(views(x@)[i as int] != views(y@)[i as int]);
                return false;
            }
            k = k + 1;
        }
        assert(a@ =~= b@);
        i = i + 1;
    }
    assert(views(x@) =~= views(y@));
    true
}

/// Whether the paths `a` and `b` name the same file: the same components.
pub fn same_path(a: &String, b: &String) -> (r: bool)
    ensures
        r == (path_key(a@) == path_key(b@)),
{
    let sa = a.as_str();
    let sb = b.as_str();
    let la = lead_code(sa);
    let lb = lead_code(sb);
    let ca = components(sa);
    let cb = components(sb);
    let same = la == lb && same_texts(&ca, &cb);
    proof {
        lemma_key_eq(a@, b@);
    }
    same
}

/// Two paths have the same components exactly when they begin alike and
/// have the same components after the beginning.
pub proof fn lemma_key_eq(a: Seq<char>, b: Seq<char>)
    ensures
        (path_key(a) == path_key(b)) == (lead_kind(a) == lead_kind(b) && parts(a).filter(
            component_filter(),
        ) == parts(b).filter(component_filter())),
{
    let ka = path_key(a);
    let kb = path_key(b);
    let fa = parts(a).filter(component_filter());
    let fb = parts(b).filter(component_filter());
    let na = lead(a).len();
    let nb = lead(b).len();
    assert(seq!['/'] != seq!['.']) by {
        assert(seq!['/'][0] != seq!['.'][0]);
    }
    if ka == kb {
        if lead_kind(a) != lead_kind(b) {
            if na == nb {
                assert(ka[0] == lead(a)[0]);
                assert(kb[0] == lead(b)[0]);
            } else if na == 1 {
                assert(ka[0] == lead(a)[0]);
                lemma_components_plain(b, 0);
                assert(kb[0] == fb[0]);
            } else {
                assert(kb[0] == lead(b)[0]);
                lemma_components_plain(a, 0);
                assert(ka[0] == fa[0]);
            }
        } else {
            assert(fa =~= ka.skip(na as int));
            assert(fb =~= kb.skip(nb as int));
        }
    }
}

/// A component is neither `/` nor `.`.
proof fn lemma_components_plain(s: Seq<char>, i: int)
    requires
        0 <= i < parts(s).filter(component_filter()).len(),
    ensures
        parts(s).filter(component_filter())[i] != seq!['/'],
        parts(s).filter(component_filter())[i] != seq!['.'],
{
    let f = parts(s).filter(component_filter());
    parts(s).lemma_filter_pred(component_filter(), i);
    lemma_parts_no_separator(s);
    assert(f.contains(f[i]));
    parts(s).lemma_filter_contains_rev(component_filter(), f[i]);
    let t = choose|t: int| 0 <= t < parts(s).len() && parts(s)[t] == f[i];
    if f[i] == seq!['/'] {
        assert(parts(s)[t][0] == '/');
    }
}

/// No part holds a separator.
proof fn lemma_parts_no_separator(s: Seq<char>)
    ensures
        forall|t: int, k: int|
            0 <= t < parts(s).len() && 0 <= k < parts(s)[t].len() ==> (#[trigger] parts(s)[t][k])
                != '/',
    decreases s.len(),
{
    if s.len() > 0 {
        let init = s.drop_last();
        lemma_parts_no_separator(init);
        let (d, c) = scan(init);
        assert(parts(init) == d.push(c));
        if s.last() == '/' {
            assert(parts(s) =~= d.push(c).push(Seq::<char>::empty()));
            assert forall|t: int, k: int|
                0 <= t < parts(s).len() && 0 <= k < parts(s)[t].len() implies (#[trigger] parts(
                s,
            )[t][k]) != '/' by {
                if t < parts(init).len() {
                    assert(parts(s)[t] == parts(init)[t]);
                }
            }
        } else {
            assert(parts(s) =~= d.push(c.push(s.last())));
            assert forall|t: int, k: int|
                0 <= t < parts(s).len() && 0 <= k < parts(s)[t].len() implies (#[trigger] parts(
                s,
            )[t][k]) != '/' by {
                if t < d.len() {
                    assert(parts(s)[t] == parts(init)[t]);
                } else if k < c.len() {
                    assert(parts(s)[t][k] == parts(init)[t][k]);
                }
            }
        }
    }
}

} // verus!
