//! The one-line summary of what an explorer carries.
use vstd::prelude::*;

use common_game::components::resource::{BasicResourceType, ComplexResourceType, ResourceType};

use vstd::relations::sorted_by;

use crate::text::{
    append_decimal,
    append_joined,
    decimal,
    join,
    lemma_join_contains_each_part,
    lemma_lex_order_total,
    lex_order,
    sort_strings,
    views,
};

verus! {

broadcast use {vstd::seq_lib::group_to_multiset_ensures, vstd::multiset::group_multiset_axioms};

#[verifier::external_type_specification]
#[verifier::external_body]
pub struct ExResourceType(ResourceType);

#[verifier::external_type_specification]
#[verifier::external_body]
pub struct ExBasicResourceType(BasicResourceType);

#[verifier::external_type_specification]
#[verifier::external_body]
pub struct ExComplexResourceType(ComplexResourceType);

/// What `{:?}` prints for a resource type (for instance `Basic(Oxygen)`).
pub uninterp spec fn resource_debug_label(r: ResourceType) -> Seq<char>;

/// The `Debug` text of a resource type, from its derived `Debug` impl in
/// `common_game`. Claimed: the text depends on the resource type alone.
#[verifier::external_body]
pub(crate) fn resource_label(r: &ResourceType) -> (s: String)
    ensures
        s@ == resource_debug_label(*r),
{
    format!("{r:?}")
}

/// What an explorer carries: each resource type with its amount.
pub struct BagContent {
    pub resources_amounts: Vec<(ResourceType, usize)>,
}

/// `label:amount`, one entry of the summary.
pub open spec fn entry_text(label: Seq<char>, amount: nat) -> Seq<char> {
    label + seq![':'] + decimal(amount)
}

/// The separator between two entries of the summary.
pub open spec fn entry_sep() -> Seq<char> {
    seq![',', ' ']
}

/// The summary of a bag given as (label, amount) entries: `bag: empty`
/// when there is none, else `bag: ` and the entry texts in string order,
/// separated by `, `.
pub open spec fn bag_text(entries: Seq<(Seq<char>, nat)>) -> Seq<char> {
    if entries.len() == 0 {
        seq!['b', 'a', 'g', ':', ' ', 'e', 'm', 'p', 't', 'y']
    } else {
        seq!['b', 'a', 'g', ':', ' '] + join(
            entries.map_values(|e: (Seq<char>, nat)| entry_text(e.0, e.1)).sort_by(lex_order()),
            entry_sep(),
        )
    }
}

/// The (label, amount) entries of labelled bag contents.
pub open spec fn labelled_entries(entries: Seq<(String, usize)>) -> Seq<(Seq<char>, nat)> {
    entries.map_values(|e: (String, usize)| (e.0@, e.1 as nat))
}

/// The (label, amount) entries of a bag, each resource type by its
/// `Debug` text.
pub open spec fn bag_entries(bag: &BagContent) -> Seq<(Seq<char>, nat)> {
    bag.resources_amounts@.map_values(
        |e: (ResourceType, usize)| (resource_debug_label(e.0), e.1 as nat),
    )
}

/// The summary of bag contents whose resource types are already written
/// out as text.
pub fn format_labelled_bag(entries: &Vec<(String, usize)>) -> (s: String)
    ensures
        s@ == bag_text(labelled_entries(entries@)),
{
    let n = entries.len();
    if n == 0 {
        let s = String::from_str("bag: empty");
        proof {
            reveal_strlit("bag: empty");
        }
        return s;
    }
    let ghost texts_spec = labelled_entries(entries@).map_values(
        |e: (Seq<char>, nat)| entry_text(e.0, e.1),
    );
    let mut texts: Vec<String> = Vec::new();
    let mut i: usize = 0;
    while i < n
        invariant
            n == entries.len(),
            i <= n,
            texts_spec == labelled_entries(entries@).map_values(
                |e: (Seq<char>, nat)| entry_text(e.0, e.1),
            ),
            texts@.len() == i,
            views(texts@) =~= texts_spec.take(i as int),
        decreases n - i,
    {
        let mut t = entries[i].0.clone();
        proof {
            reveal_strlit(":");
        }
        t.append(":");
        append_decimal(&mut t, entries[i].1 as u64);
        let ghost e = entries@[i as int];
        proof {
            assert(t@ =~= entry_text(e.0@, e.1 as nat));
            assert(labelled_entries(entries@)[i as int] == (e.0@, e.1 as nat));
            assert(texts_spec[i as int] == entry_text(e.0@, e.1 as nat));
        }
        texts.push(t);
        proof {
            assert(views(texts@) =~= texts_spec.take(i + 1));
        }
        i = i + 1;
    }
    assert(texts_spec.take(n as int) =~= texts_spec);
    let sorted = sort_strings(texts);
    let mut s = String::from_str("bag: ");
    proof {
        reveal_strlit("bag: ");
        reveal_strlit(", ");
    }
    append_joined(&mut s, &sorted, ", ");
    assert(entry_sep() =~= ", "@);
    assert(s@ =~= bag_text(labelled_entries(entries@)));
    s
}

/// The summary of an explorer's bag, as the canvas shows it under the
/// explorer: `bag: empty`, or `bag: ` followed by the `Type:amount`
/// entries in string order, separated by `, `.
pub fn format_bag_content(bag: &BagContent) -> (s: String)
    ensures
        s@ == bag_text(bag_entries(bag)),
{
    let n = bag.resources_amounts.len();
    let mut labelled: Vec<(String, usize)> = Vec::new();
    let mut i: usize = 0;
    while i < n
        invariant
            n == bag.resources_amounts.len(),
            i <= n,
            labelled@.len() == i,
            labelled_entries(labelled@) =~= bag_entries(bag).take(i as int),
        decreases n - i,
    {
        let label = resource_label(&bag.resources_amounts[i].0);
        let ghost e = bag.resources_amounts@[i as int];
        labelled.push((label, bag.resources_amounts[i].1));
        proof {
            assert(label@ == resource_debug_label(e.0));
            assert(bag_entries(bag)[i as int] == (resource_debug_label(e.0), e.1 as nat));
            assert(labelled_entries(labelled@)[i as int] == (label@, e.1 as nat));
            assert(labelled_entries(labelled@) =~= bag_entries(bag).take(i + 1));
        }
        i = i + 1;
    }
    assert(bag_entries(bag).take(n as int) =~= bag_entries(bag));
    format_labelled_bag(&labelled)
}

proof fn lemma_map_values_multiset<A, B>(x: Seq<A>, y: Seq<A>, f: spec_fn(A) -> B)
    requires
        x.to_multiset() == y.to_multiset(),
    ensures
        x.map_values(f).to_multiset() == y.map_values(f).to_multiset(),
    decreases x.len(),
{
    x.to_multiset_ensures();
    y.to_multiset_ensures();
    if x.len() == 0 {
        assert(y.len() == 0);
        assert(x.map_values(f) =~= y.map_values(f));
    } else {
        let a = x[0];
        assert(x.to_multiset().count(a) > 0);
        assert(y.contains(a));
        let i = choose|i: int| 0 <= i < y.len() && y[i] == a;
        let x1 = x.remove(0);
        let y1 = y.remove(i);
        assert(x1.to_multiset() =~= y1.to_multiset());
        lemma_map_values_multiset(x1, y1, f);
        assert(x.map_values(f).remove(0) =~= x1.map_values(f));
        assert(y.map_values(f).remove(i) =~= y1.map_values(f));
        let mx = x.map_values(f).to_multiset();
        let my = y.map_values(f).to_multiset();
        assert(x.map_values(f)[0] == f(a));
        assert(y.map_values(f)[i] == f(a));
        assert(mx.count(f(a)) > 0) by {
            assert(x.map_values(f).contains(f(a)));
        }
        assert(my.count(f(a)) > 0) by {
            assert(y.map_values(f).contains(f(a)));
        }
        assert(mx =~= my) by {
            assert(mx.remove(f(a)) =~= my.remove(f(a)));
            assert forall|v: B| mx.count(v) == my.count(v) by {
                assert(mx.remove(f(a)).count(v) == my.remove(f(a)).count(v));
            }
        }
    }
}

/// The summary does not depend on the order in which the entries are
/// listed: two entry lists with the same entries, each as often, give the
/// same text.
pub proof fn lemma_bag_text_order_free(a: Seq<(Seq<char>, nat)>, b: Seq<(Seq<char>, nat)>)
    requires
        a.to_multiset() == b.to_multiset(),
    ensures
        bag_text(a) == bag_text(b),
{
    let f = |e: (Seq<char>, nat)| entry_text(e.0, e.1);
    lemma_map_values_multiset(a, b, f);
    let ta = a.map_values(f);
    let tb = b.map_values(f);
    crate::text::lemma_lex_order_total();
    ta.lemma_sort_by_ensures(lex_order());
    tb.lemma_sort_by_ensures(lex_order());
    vstd::seq_lib::lemma_sorted_unique(ta.sort_by(lex_order()), tb.sort_by(lex_order()), lex_order());
    a.to_multiset_ensures();
    b.to_multiset_ensures();
    assert(a.len() == b.len());
}

/// The summary of a non-empty bag is `bag: ` and then all its entry texts,
/// each as often as it occurs, in string order, separated by `, `: for any
/// listing of the entry texts in string order, the summary is exactly that
/// listing joined.
pub proof fn lemma_bag_text_lists_every_entry(
    entries: Seq<(Seq<char>, nat)>,
    parts: Seq<Seq<char>>,
)
    requires
        entries.len() > 0,
        parts.to_multiset() == entries.map_values(
            |e: (Seq<char>, nat)| entry_text(e.0, e.1),
        ).to_multiset(),
        sorted_by(parts, lex_order()),
    ensures
        bag_text(entries) == seq!['b', 'a', 'g', ':', ' '] + join(parts, entry_sep()),
        parts.len() == entries.len(),
{
    let t = entries.map_values(|e: (Seq<char>, nat)| entry_text(e.0, e.1));
    lemma_lex_order_total();
    t.lemma_sort_by_ensures(lex_order());
    vstd::seq_lib::lemma_sorted_unique(t.sort_by(lex_order()), parts, lex_order());
    parts.to_multiset_ensures();
    t.to_multiset_ensures();
}

/// Every entry of a bag shows in its summary: the text `label:amount` of
/// each entry appears whole in the summary, after the leading `bag: `.
pub proof fn lemma_bag_text_shows_each_entry(entries: Seq<(Seq<char>, nat)>, k: int)
    requires
        0 <= k < entries.len(),
    ensures
        exists|o: int|
            5 <= o && o + entry_text(entries[k].0, entries[k].1).len() <= bag_text(entries).len()
                && #[trigger] bag_text(entries).subrange(
                o,
                o + entry_text(entries[k].0, entries[k].1).len(),
            ) == entry_text(entries[k].0, entries[k].1),
{
    let x = entry_text(entries[k].0, entries[k].1);
    let t = entries.map_values(|e: (Seq<char>, nat)| entry_text(e.0, e.1));
    let sorted = t.sort_by(lex_order());
    lemma_lex_order_total();
    t.lemma_sort_by_ensures(lex_order());
    assert(t[k] == x);
    assert(t.to_multiset().count(x) > 0) by {
        assert(t.contains(x));
    }
    assert(sorted.contains(x));
    let i = choose|i: int| 0 <= i < sorted.len() && sorted[i] == x;
    lemma_join_contains_each_part(sorted, entry_sep(), i);
    let j = join(sorted, entry_sep());
    let o = choose|o: int|
        0 <= o && o + sorted[i].len() <= j.len() && #[trigger] j.subrange(o, o + sorted[i].len())
            == sorted[i];
    let prefix = seq!['b', 'a', 'g', ':', ' '];
    assert(bag_text(entries) == prefix + j);
    assert(bag_text(entries).subrange(o + 5, o + 5 + x.len()) =~= j.subrange(o, o + x.len()));
}

} // verus!
