//! The state that is saved between sessions: for each output, the source that
//! it showed last, so that a slideshow resumes where it stopped.

use vstd::prelude::*;
use crate::wallpaper::{Layer, Source, Wallpaper, is_copy_of};
use vstd::string::StrSliceExecFns;

verus! {

/// The texts of a sequence of strings.
pub open spec fn texts(s: Seq<String>) -> Seq<Seq<char>> {
    Seq::new(s.len(), |i: int| s[i]@)
}

/// The output names of the saved entries, in order.
pub open spec fn names_of<S>(s: Seq<(String, S)>) -> Seq<Seq<char>> {
    Seq::new(s.len(), |i: int| s[i].0@)
}

/// The names `ks` after each name of `ns` that they lack has been appended.
pub open spec fn with_names(ks: Seq<Seq<char>>, ns: Seq<Seq<char>>) -> Seq<Seq<char>>
    decreases ns.len(),
{
    if ns.len() == 0 {
        ks
    } else {
        let r = with_names(ks, ns.drop_last());
        if r.contains(ns.last()) {
            r
        } else {
            r.push(ns.last())
        }
    }
}

/// Adding names never shortens the names.
pub proof fn lemma_with_names_len(ks: Seq<Seq<char>>, ns: Seq<Seq<char>>)
    ensures
        with_names(ks, ns).len() >= ks.len(),
    decreases ns.len(),
{
    if ns.len() > 0 {
        lemma_with_names_len(ks, ns.drop_last());
    }
}

/// Position `i` holds the first occurrence of its name.
pub open spec fn first_named(ks: Seq<Seq<char>>, i: int) -> bool {
    forall|j: int| 0 <= j < i ==> ks[j] != ks[i]
}

/// `after` is `before` with `source` recorded for each of the outputs `outputs`:
/// the first entry of each such output now holds a copy of `source` (the same
/// path, or a clone of the same color), outputs
/// without an entry got one at the end (in the order of `outputs`), the entries
/// that were there keep their names, and every other entry is unchanged.
pub open spec fn recorded<C: Clone>(
    before: Seq<(String, Source<C>)>,
    outputs: Seq<Seq<char>>,
    source: Source<C>,
    after: Seq<(String, Source<C>)>,
) -> bool {
    &&& names_of(after) == with_names(names_of(before), outputs)
    &&& forall|i: int| 0 <= i < before.len() ==> (#[trigger] after[i]).0 == before[i].0
    &&& forall|i: int|
        0 <= i < after.len() ==> if first_named(names_of(after), i) && outputs.contains(
            (#[trigger] after[i]).0@,
        ) {
            is_copy_of(source, after[i].1)
        } else {
            i < before.len() && after[i] == before[i]
        }
}

/// The first entry named `name`, if any.
fn find_output<S>(saved: &Vec<(String, S)>, name: &String) -> (r: Option<usize>)
    ensures
        match r {
            Some(f) => f < saved@.len() && names_of(saved@)[f as int] == name@ && first_named(
                names_of(saved@),
                f as int,
            ),
            None => !names_of(saved@).contains(name@),
        },
{
    let n = saved.len();
    let mut i: usize = 0;
    while i < n
        invariant
            n == saved@.len(),
            i <= n,
            forall|j: int| 0 <= j < i ==> names_of(saved@)[j] != name@,
        decreases n - i,
    {
        if saved[i].0 == *name {
            return Some(i);
        }
        i = i + 1;
    }
    None
}

/// Records `source` as what each of the outputs `outputs` shows.
pub fn record_source<C: Clone>(
    saved: &mut Vec<(String, Source<C>)>,
    outputs: &Vec<String>,
    source: &Source<C>,
)
    ensures
        recorded(old(saved)@, texts(outputs@), *source, final(saved)@),
{
    let ghost before = saved@;
    let n = outputs.len();
    let mut k: usize = 0;
    assert(texts(outputs@).take(0) =~= Seq::<Seq<char>>::empty());
    assert(names_of(saved@) =~= names_of(before));
    while k < n
        invariant
            n == outputs@.len(),
            k <= n,
            recorded(before, texts(outputs@).take(k as int), *source, saved@),
        decreases n - k,
    {
        let ghost prev = saved@;
        let ghost done = texts(outputs@).take(k as int);
        proof {
            lemma_with_names_len(names_of(before), done);
            assert(names_of(prev).len() == prev.len());
        }
        let ghost now = texts(outputs@).take(k + 1);
        let name = &outputs[k];
        assert(now.drop_last() =~= done);
        assert(now.last() == name@);
        assert forall|x: Seq<char>| now.contains(x) <==> (done.contains(x) || x == name@) by {
            if now.contains(x) {
                let t = choose|t: int| 0 <= t < now.len() && now[t] == x;
                if t < k {
                    assert(done[t] == x);
                }
            }
            if done.contains(x) {
                let t = choose|t: int| 0 <= t < done.len() && done[t] == x;
                assert(now[t] == x);
            }
            if x == name@ {
                assert(now[k as int] == x);
            }
        }
        match find_output(saved, name) {
            Some(f) => {
                let key = saved[f].0.clone();
                let copy = source.duplicate();
                saved.set(f, (key, copy));
                assert(names_of(saved@) =~= names_of(prev));
                assert forall|i: int| 0 <= i < before.len() implies (#[trigger] saved@[i]).0 == before[i].0 by {
                    assert(prev[i].0 == before[i].0);
                }
                assert forall|i: int| 0 <= i < saved@.len() implies if first_named(
                    names_of(saved@),
                    i,
                ) && now.contains((#[trigger] saved@[i]).0@) {
                    is_copy_of(*source, saved@[i].1)
                } else {
                    i < before.len() && saved@[i] == before[i]
                } by {
                    if i != f {
                        assert(saved@[i] == prev[i]);
                        if first_named(names_of(saved@), i) && saved@[i].0@ == name@ {
                            if i < f {
                                assert(names_of(prev)[i] == name@);
                            } else {
                                assert(names_of(saved@)[f as int] == names_of(saved@)[i]);
                            }
                        }
                    }
                }
            },
            None => {
                let key = name.clone();
                let copy = source.duplicate();
                saved.push((key, copy));
                assert(names_of(saved@) =~= names_of(prev).push(name@));
                assert forall|i: int| 0 <= i < before.len() implies (#[trigger] saved@[i]).0 == before[i].0 by {
                    assert(prev[i].0 == before[i].0);
                    assert(saved@[i] == prev[i]);
                }
                assert forall|i: int| 0 <= i < saved@.len() implies if first_named(
                    names_of(saved@),
                    i,
                ) && now.contains((#[trigger] saved@[i]).0@) {
                    is_copy_of(*source, saved@[i].1)
                } else {
                    i < before.len() && saved@[i] == before[i]
                } by {
                    if i < prev.len() {
                        assert(saved@[i] == prev[i]);
                        assert(names_of(prev)[i] == prev[i].0@);
                        if saved@[i].0@ == name@ {
                            assert(names_of(prev).contains(name@));
                        }
                        assert forall|j: int| 0 <= j <= i implies names_of(saved@)[j] == names_of(
                            prev,
                        )[j] by {}
                        assert(first_named(names_of(saved@), i) == first_named(names_of(prev), i));
                    } else {
                        assert forall|j: int| 0 <= j < i implies names_of(saved@)[j] != names_of(
                            saved@,
                        )[i] by {
                            assert(names_of(saved@)[j] == names_of(prev)[j]);
                        }
                    }
                }
            },
        }
        k = k + 1;
    }
    assert(texts(outputs@).take(n as int) =~= texts(outputs@));
}

/// The output name that stands for every output.
pub open spec fn all_outputs() -> Seq<char> {
    seq!['a', 'l', 'l']
}

/// The saved entry that the output `output` resumes from: the first entry
/// for `all`, else the first entry with the output's name.
pub open spec fn saved_index<S>(saved: Seq<(String, S)>, output: Seq<char>) -> Option<int> {
    if output == all_outputs() {
        if saved.len() > 0 {
            Some(0)
        } else {
            None
        }
    } else if names_of(saved).contains(output) {
        Some(choose|i: int| 0 <= i < saved.len() && names_of(saved)[i] == output && first_named(names_of(saved), i))
    } else {
        None
    }
}

/// The path that a saved entry shows, if it shows a path.
pub open spec fn path_of<C>(s: Source<C>) -> Option<String> {
    match s {
        Source::Path(p) => Some(p),
        Source::Color(_) => None,
    }
}

/// The name under which the state of a layer is saved: its output's name, or
/// the empty name when the compositor gave none.
pub open spec fn layer_name(l: Layer) -> Seq<char> {
    match l.output_name {
        Some(n) => n@,
        None => Seq::empty(),
    }
}

/// The names of the layers, in order.
pub open spec fn layer_names(ls: Seq<Layer>) -> Seq<Seq<char>> {
    Seq::new(ls.len(), |i: int| layer_name(ls[i]))
}

/// A name that occurs has a first occurrence.
pub proof fn lemma_first_occurrence(ks: Seq<Seq<char>>, x: Seq<char>)
    requires
        ks.contains(x),
    ensures
        exists|i: int| 0 <= i < ks.len() && ks[i] == x && first_named(ks, i),
    decreases ks.len(),
{
    let init = ks.drop_last();
    if init.contains(x) {
        lemma_first_occurrence(init, x);
        let i = choose|i: int| 0 <= i < init.len() && init[i] == x && first_named(init, i);
        assert(ks[i] == x);
        assert forall|j: int| 0 <= j < i implies ks[j] != ks[i] by {
            assert(init[j] == ks[j]);
        }
    } else {
        let i = ks.len() - 1;
        assert(ks[i] == x) by {
            let t = choose|t: int| 0 <= t < ks.len() && ks[t] == x;
            if t < i {
                assert(init[t] == x);
            }
        }
        assert forall|j: int| 0 <= j < i implies ks[j] != ks[i] by {
            assert(init[j] == ks[j]);
            if ks[j] == x {
                assert(init.contains(x));
            }
        }
    }
}

/// Only one position holds the first occurrence of a name.
pub proof fn lemma_first_named_unique(ks: Seq<Seq<char>>, a: int, b: int)
    requires
        0 <= a < ks.len(),
        0 <= b < ks.len(),
        ks[a] == ks[b],
        first_named(ks, a),
        first_named(ks, b),
    ensures
        a == b,
{
}

/// Whether `name` is the name that stands for every output.
fn is_all_outputs(name: &String) -> (r: bool)
    ensures
        r == (name@ == all_outputs()),
{
    let s = name.as_str();
    if s.unicode_len() != 3 {
        return false;
    }
    let r = s.get_char(0) == 'a' && s.get_char(1) == 'l' && s.get_char(2) == 'l';
    if r {
        assert(name@ =~= all_outputs());
    }
    r
}

/// The image that the output `output` showed last, as saved: the path of its
/// saved entry (see `saved_index`), if that entry shows a path.
pub fn resume_path<C>(saved: &Vec<(String, Source<C>)>, output: &String) -> (r: Option<String>)
    ensures
        r == match saved_index(saved@, output@) {
            Some(i) => path_of(saved@[i].1),
            None => None,
        },
{
    let idx = if is_all_outputs(output) {
        if saved.len() > 0 {
            Some(0)
        } else {
            None
        }
    } else {
        let f = find_output(saved, output);
        proof {
            if let Some(f) = f {
                assert(names_of(saved@).contains(output@));
                lemma_first_occurrence(names_of(saved@), output@);
                let c = choose|i: int| 0 <= i < saved@.len() && names_of(saved@)[i] == output@ && first_named(names_of(saved@), i);
                lemma_first_named_unique(names_of(saved@), c, f as int);
            }
        }
        f
    };
    match idx {
        Some(i) => match &saved[i].1 {
            Source::Path(p) => Some(p.clone()),
            Source::Color(_) => None,
        },
        None => None,
    }
}

/// Membership in `with_names`: the names that were there, and the added ones.
pub proof fn lemma_with_names_contains(ks: Seq<Seq<char>>, ns: Seq<Seq<char>>, x: Seq<char>)
    ensures
        with_names(ks, ns).contains(x) <==> (ks.contains(x) || ns.contains(x)),
    decreases ns.len(),
{
    if ns.len() > 0 {
        let init = ns.drop_last();
        lemma_with_names_contains(ks, init, x);
        let r = with_names(ks, init);
        if ns.contains(x) && !init.contains(x) {
            let t = choose|t: int| 0 <= t < ns.len() && ns[t] == x;
            if t < ns.len() - 1 {
                assert(init[t] == x);
            }
        }
        if init.contains(x) {
            let t = choose|t: int| 0 <= t < init.len() && init[t] == x;
            assert(ns[t] == x);
        }
        if !r.contains(ns.last()) {
            let e = r.push(ns.last());
            if r.contains(x) {
                let t = choose|t: int| 0 <= t < r.len() && r[t] == x;
                assert(e[t] == x);
            }
            if e.contains(x) {
                let t = choose|t: int| 0 <= t < e.len() && e[t] == x;
                if t < r.len() {
                    assert(r[t] == x);
                }
            }
            assert(e[r.len() as int] == ns.last());
        }
        assert(ns[ns.len() - 1] == ns.last());
    }
}

/// What is saved for an output is what it resumes from: after recording a
/// source for some outputs, the saved entry of each of them (unless it is
/// named `all`) is a copy of that source; for a path, `resume_path` gives
/// that very path.
pub proof fn law_record_then_resume<C: Clone>(
    before: Seq<(String, Source<C>)>,
    outputs: Seq<Seq<char>>,
    source: Source<C>,
    after: Seq<(String, Source<C>)>,
    output: Seq<char>,
)
    requires
        recorded(before, outputs, source, after),
        outputs.contains(output),
        output != all_outputs(),
    ensures
        saved_index(after, output) matches Some(i) && is_copy_of(source, after[i].1),
        source is Path ==> (saved_index(after, output) matches Some(i) && path_of(after[i].1)
            == path_of(source)),
{
    lemma_with_names_contains(names_of(before), outputs, output);
    lemma_first_occurrence(names_of(after), output);
    let i = choose|i: int| 0 <= i < after.len() && names_of(after)[i] == output && first_named(names_of(after), i);
    assert(after[i].0@ == output);
}

/// Adding names that are all there already changes nothing.
proof fn lemma_with_names_held(ks: Seq<Seq<char>>, ns: Seq<Seq<char>>)
    requires
        forall|i: int| 0 <= i < ns.len() ==> ks.contains(#[trigger] ns[i]),
    ensures
        with_names(ks, ns) == ks,
    decreases ns.len(),
{
    if ns.len() > 0 {
        let init = ns.drop_last();
        assert forall|i: int| 0 <= i < init.len() implies ks.contains(#[trigger] init[i]) by {
            assert(init[i] == ns[i]);
        }
        lemma_with_names_held(ks, init);
        assert(ks.contains(ns[ns.len() - 1]));
    }
}

/// Saving twice is saving once: recording the same source for the same
/// outputs again keeps every entry's name and changes no entry other than
/// those that hold a copy of the source both times; for a path source the
/// second recording changes nothing at all.
pub proof fn law_record_twice<C: Clone>(
    s0: Seq<(String, Source<C>)>,
    outputs: Seq<Seq<char>>,
    source: Source<C>,
    s1: Seq<(String, Source<C>)>,
    s2: Seq<(String, Source<C>)>,
)
    requires
        recorded(s0, outputs, source, s1),
        recorded(s1, outputs, source, s2),
    ensures
        s2.len() == s1.len(),
        forall|i: int|
            0 <= i < s2.len() ==> (#[trigger] s2[i]).0 == s1[i].0 && (s2[i] == s1[i] || (
            is_copy_of(source, s1[i].1) && is_copy_of(source, s2[i].1))),
        source is Path ==> s2 == s1,
{
    let k1 = names_of(s1);
    assert forall|i: int| 0 <= i < outputs.len() implies k1.contains(#[trigger] outputs[i]) by {
        lemma_with_names_contains(names_of(s0), outputs, outputs[i]);
        assert(outputs.contains(outputs[i]));
    }
    lemma_with_names_held(k1, outputs);
    assert(names_of(s2) == k1);
    assert(s2.len() == names_of(s2).len());
    assert forall|i: int| 0 <= i < s2.len() implies (#[trigger] s2[i]).0 == s1[i].0 && (s2[i] == s1[i] || (
    is_copy_of(source, s1[i].1) && is_copy_of(source, s2[i].1))) by {
        assert(names_of(s2)[i] == k1[i]);
        if first_named(names_of(s2), i) && outputs.contains(s2[i].0@) {
            assert(s1[i].0@ == s2[i].0@);
        }
    }
    if source is Path {
        assert forall|i: int| 0 <= i < s2.len() implies s2[i] == s1[i] by {
            if s2[i] != s1[i] {
                assert(s2[i].1 == s1[i].1);
            }
        }
        assert(s2 =~= s1);
    }
}

impl<C: Clone> Wallpaper<C> {
    /// The saved state after this wallpaper recorded what it shows for each
    /// of its layers' outputs; nothing to save while it shows nothing.
    pub fn save_state(&self, saved: Vec<(String, Source<C>)>) -> (r: Option<
        Vec<(String, Source<C>)>,
    >)
        ensures
            self.current_source is None ==> r is None,
            self.current_source is Some ==> (r matches Some(after) && recorded(
                saved@,
                layer_names(self.layers@),
                self.current_source->0,
                after@,
            )),
    {
        match &self.current_source {
            None => None,
            Some(shown) => {
                let mut names: Vec<String> = Vec::new();
                let n = self.layers.len();
                let mut i: usize = 0;
                while i < n
                    invariant
                        n == self.layers@.len(),
                        i <= n,
                        names@.len() == i,
                        texts(names@) == layer_names(self.layers@).take(i as int),
                    decreases n - i,
                {
                    let name = match &self.layers[i].output_name {
                        Some(o) => o.clone(),
                        None => String::new(),
                    };
                    assert(name@ == layer_name(self.layers@[i as int]));
                    let ghost prev = names@;
                    names.push(name);
                    assert forall|j: int| 0 <= j < i implies names@[j]@ == layer_names(self.layers@)[j] by {
                        assert(names@[j] == prev[j]);
                        assert(texts(prev)[j] == prev[j]@);
                    }
                    assert(texts(names@) =~= layer_names(self.layers@).take(i + 1));
                    i = i + 1;
                }
                assert(texts(names@) =~= layer_names(self.layers@));
                let mut after = saved;
                record_source(&mut after, &names, shown);
                Some(after)
            },
        }
    }
}

} // verus!
