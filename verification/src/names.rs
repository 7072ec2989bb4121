//! Sets of names, listed in order.

use vstd::prelude::*;

use crate::order::sort;
use crate::text::{before, same};
use crate::{order, text};

verus! {

/// The order of strings.
pub open spec fn by_text() -> spec_fn(String, String) -> bool {
    |a: String, b: String| text::text_before(a@, b@)
}

proof fn lemma_by_text()
    ensures
        order::is_ranking(by_text()),
{
    assert forall|a: String, b: String| #[trigger] by_text()(a, b) implies !by_text()(b, a) by {
        text::lemma_text_before_asymmetric(a@, b@);
    }
    assert forall|a: String, b: String, c: String|
        !#[trigger] by_text()(b, a) && !#[trigger] by_text()(c, b) implies !by_text()(c, a) by {
        text::lemma_text_before_connected(a@, b@);
        text::lemma_text_before_connected(b@, c@);
        if text::text_before(c@, a@) {
            if a@ != b@ && b@ != c@ {
                text::lemma_text_before_transitive(a@, b@, c@);
                text::lemma_text_before_asymmetric(a@, c@);
            }
        }
    }
}

/// Whether a list holds exactly the names that another one holds, each once
/// and in order.
pub open spec fn lists(listed: Seq<Seq<char>>, names: Seq<Seq<char>>) -> bool {
    &&& forall|i: int, j: int|
        0 <= i < j < listed.len() ==> text::text_before(#[trigger] listed[i], #[trigger] listed[j])
    &&& forall|name: Seq<char>| #[trigger] listed.contains(name) <==> names.contains(name)
}

/// There is one such list for given names.
pub proof fn law_list_is_determined(
    a: Seq<Seq<char>>,
    b: Seq<Seq<char>>,
    names: Seq<Seq<char>>,
)
    requires
        lists(a, names),
        lists(b, names),
    ensures
        a == b,
    decreases a.len(),
{
    if a.len() == 0 {
        if b.len() > 0 {
            assert(b.contains(b[0]));
            assert(a.contains(b[0]));
        }
        assert(a =~= b);
    } else {
        assert(a.contains(a.last()));
        assert(b.contains(a.last()));
        let k = choose|k: int| 0 <= k < b.len() && b[k] == a.last();
        assert(b.contains(b.last()));
        assert(a.contains(b.last()));
        let m = choose|m: int| 0 <= m < a.len() && a[m] == b.last();
        if k < b.len() - 1 {
            assert(text::text_before(b[k], b[b.len() - 1]));
            text::lemma_text_before_asymmetric(b[k], b[b.len() - 1]);
            if m < a.len() - 1 {
                assert(text::text_before(a[m], a[a.len() - 1]));
            }
        }
        assert(a.last() == b.last());
        let x = a.last();
        let rest = names.filter(other_than(x));
        let (p, q) = (a.drop_last(), b.drop_last());
        lemma_without_last(a, names, rest, x);
        lemma_without_last(b, names, rest, x);
        law_list_is_determined(p, q, rest);
        assert(a =~= p.push(x) && b =~= q.push(x));
    }
}

spec fn other_than(x: Seq<char>) -> spec_fn(Seq<char>) -> bool {
    |name: Seq<char>| name != x
}

proof fn lemma_without_last(
    listed: Seq<Seq<char>>,
    names: Seq<Seq<char>>,
    rest: Seq<Seq<char>>,
    x: Seq<char>,
)
    requires
        lists(listed, names),
        listed.len() > 0,
        listed.last() == x,
        rest == names.filter(other_than(x)),
    ensures
        lists(listed.drop_last(), rest),
{
    let short = listed.drop_last();
    assert(forall|i: int| 0 <= i < short.len() ==> #[trigger] short[i] == listed[i]);
    assert forall|name: Seq<char>| #[trigger] short.contains(name) <==> rest.contains(name) by {
        broadcast use vstd::seq_lib::group_filter_ensures;

        let keep = other_than(x);
        if short.contains(name) {
            let i = choose|i: int| 0 <= i < short.len() && short[i] == name;
            assert(listed[i] == name);
            assert(listed.contains(name));
            assert(text::text_before(listed[i], listed[listed.len() - 1]));
            text::lemma_text_before_asymmetric(listed[i], listed[listed.len() - 1]);
            let k = choose|k: int| 0 <= k < names.len() && names[k] == name;
            assert(keep(names[k]));
            assert(names.filter(keep).contains(names[k]));
        }
        if rest.contains(name) {
            let k = choose|k: int| 0 <= k < rest.len() && rest[k] == name;
            assert(keep(rest[k]));
            names.lemma_filter_contains_rev(keep, name);
            assert(listed.contains(name));
            let i = choose|i: int| 0 <= i < listed.len() && listed[i] == name;
            assert(short[i] == name);
        }
    }
}

/// The names of a list, each once and in order.
pub fn distinct_in_order(names: Vec<String>) -> (listed: Vec<String>)
    ensures
        lists(text::texts(listed@), text::texts(names@)),
{
    let ghost given = names@;
    let earlier = |a: &String, b: &String| -> (is: bool)
        ensures
            is == text::text_before(a@, b@),
        { before(a.as_str(), b.as_str()) };
    let mut sorted = sort(names, earlier, Ghost(by_text()));
    let ghost ranked = sorted@;
    proof {
        broadcast use vstd::seq_lib::group_to_multiset_ensures;

        lemma_by_text();
        order::lemma_in_order(given, by_text());
        assert forall|name: Seq<char>|
            #[trigger] text::texts(ranked).contains(name) <==> text::texts(given).contains(
                name,
            ) by {
            if text::texts(ranked).contains(name) {
                let i = choose|i: int| 0 <= i < ranked.len() && text::texts(ranked)[i] == name;
                assert(ranked.contains(ranked[i]));
                assert(ranked.to_multiset().count(ranked[i]) > 0);
                assert(given.contains(ranked[i]));
                let j = choose|j: int| 0 <= j < given.len() && given[j] == ranked[i];
                assert(text::texts(given)[j] == name);
            }
            if text::texts(given).contains(name) {
                let i = choose|i: int| 0 <= i < given.len() && text::texts(given)[i] == name;
                assert(given.contains(given[i]));
                assert(given.to_multiset().count(given[i]) > 0);
                assert(ranked.contains(given[i]));
                let j = choose|j: int| 0 <= j < ranked.len() && ranked[j] == given[i];
                assert(text::texts(ranked)[j] == name);
            }
        }
    }
    let mut listed: Vec<String> = Vec::new();
    let count = sorted.len();
    let mut i: usize = 0;
    while i < count
        invariant
            i <= count,
            count == ranked.len(),
            sorted@ == ranked,
            order::is_sorted(ranked, by_text()),
            forall|a: int, b: int|
                0 <= a < b < listed@.len() ==> text::text_before(
                    (#[trigger] listed@[a])@,
                    (#[trigger] listed@[b])@,
                ),
            forall|a: int|
                0 <= a < listed@.len() ==> text::texts(ranked).contains((#[trigger] listed@[a])@),
            forall|k: int|
                0 <= k < i ==> text::texts(listed@).contains((#[trigger] ranked[k])@),
            i == 0 ==> listed@.len() == 0,
            i > 0 ==> listed@.len() > 0 && listed@.last()@ == ranked[i - 1]@,
        decreases count - i,
    {
        let ghost so_far = listed@;
        let fresh = listed.len() == 0 || !same(
            listed[listed.len() - 1].as_str(),
            sorted[i].as_str(),
        );
        if fresh {
            proof {
                assert forall|a: int| 0 <= a < so_far.len() implies text::text_before(
                    (#[trigger] so_far[a])@,
                    ranked[i as int]@,
                ) by {
                    assert(!by_text()(ranked[i as int], ranked[i - 1]));
                    text::lemma_text_before_connected(so_far.last()@, ranked[i as int]@);
                    if a < so_far.len() - 1 {
                        text::lemma_text_before_transitive(
                            so_far[a]@,
                            so_far.last()@,
                            ranked[i as int]@,
                        );
                    }
                }
                assert(text::texts(ranked)[i as int] == ranked[i as int]@);
            }
            listed.push(sorted[i].clone());
        }
        proof {
            assert forall|k: int| 0 <= k < i + 1 implies text::texts(listed@).contains(
                (#[trigger] ranked[k])@,
            ) by {
                if k < i {
                    let m = choose|m: int|
                        0 <= m < so_far.len() && text::texts(so_far)[m] == ranked[k]@;
                    assert(text::texts(so_far).contains(ranked[k]@));
                    assert(text::texts(listed@)[m] == ranked[k]@);
                } else {
                    let m = listed@.len() - 1;
                    assert(text::texts(listed@)[m] == ranked[k]@);
                }
            }
        }
        i += 1;
    }
    proof {
        let out = text::texts(listed@);
        assert forall|name: Seq<char>| #[trigger] out.contains(name) <==> text::texts(
            given,
        ).contains(name) by {
            if out.contains(name) {
                let a = choose|a: int| 0 <= a < out.len() && out[a] == name;
                assert(text::texts(ranked).contains(listed@[a]@));
            }
            if text::texts(given).contains(name) {
                assert(text::texts(ranked).contains(name));
                let k = choose|k: int| 0 <= k < ranked.len() && text::texts(ranked)[k] == name;
                assert(out.contains(ranked[k]@));
            }
        }
        assert forall|i: int, j: int| 0 <= i < j < out.len() implies text::text_before(
            #[trigger] out[i],
            #[trigger] out[j],
        ) by {
            assert(text::text_before(listed@[i]@, listed@[j]@));
        }
    }
    listed
}

/// Names are told in order and each once: no name is lost, and none is told that was
/// not given.
pub proof fn law_names_are_told_once(names: Vec<String>, listed: Vec<String>)
    requires
        call_ensures(distinct_in_order, (names,), listed),
    ensures
        forall|i: int, j: int|
            0 <= i < j < listed@.len() ==> text::text_before(
                (#[trigger] listed@[i])@,
                (#[trigger] listed@[j])@,
            ),
        forall|k: int|
            0 <= k < listed@.len() ==> text::texts(names@).contains((#[trigger] listed@[k])@),
        forall|k: int|
            0 <= k < names@.len() ==> text::texts(listed@).contains((#[trigger] names@[k])@),
{
    let told = text::texts(listed@);
    let given = text::texts(names@);
    assert(told.len() == listed@.len());
    assert(given.len() == names@.len());
    assert forall|i: int, j: int| 0 <= i < j < listed@.len() implies text::text_before(
        (#[trigger] listed@[i])@,
        (#[trigger] listed@[j])@,
    ) by {
        assert(text::text_before(told[i], told[j]));
    }
    assert forall|k: int| 0 <= k < listed@.len() implies given.contains(
        (#[trigger] listed@[k])@,
    ) by {
        assert(told.contains(told[k]));
    }
    assert forall|k: int| 0 <= k < names@.len() implies told.contains((#[trigger] names@[k])@) by {
        assert(given.contains(given[k]));
    }
}

} // verus!
