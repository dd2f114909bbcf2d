//! The ordinal order on text, and the views of the phone book sorted by
//! first name.

use vstd::prelude::*;
use vstd::seq_lib::{to_multiset_build, to_multiset_insert};
use crate::book::{BookError, PhoneBook, appended};
use crate::contact::{Contact, derefs};
use crate::text::{chars_of, same_text};

verus! {

/// `a` comes before `b`, or equals it, comparing character codes from the
/// left; a proper prefix comes first.
pub open spec fn text_le(a: Seq<char>, b: Seq<char>) -> bool
    decreases a.len(),
{
    if a.len() == 0 {
        true
    } else if b.len() == 0 {
        false
    } else if a[0] != b[0] {
        a[0] < b[0]
    } else {
        text_le(a.drop_first(), b.drop_first())
    }
}

/// Any two texts are ordered one way or the other.
pub proof fn lemma_text_le_total(a: Seq<char>, b: Seq<char>)
    ensures
        text_le(a, b) || text_le(b, a),
    decreases a.len(),
{
    if a.len() > 0 && b.len() > 0 && a[0] == b[0] {
        lemma_text_le_total(a.drop_first(), b.drop_first());
    }
}

/// Texts ordered both ways are equal.
pub proof fn lemma_text_le_antisymmetric(a: Seq<char>, b: Seq<char>)
    requires
        text_le(a, b),
        text_le(b, a),
    ensures
        a == b,
    decreases a.len(),
{
    if a.len() > 0 && b.len() > 0 {
        lemma_text_le_antisymmetric(a.drop_first(), b.drop_first());
        assert(a =~= seq![a[0]] + a.drop_first());
        assert(b =~= seq![b[0]] + b.drop_first());
    } else {
        assert(a =~= b);
    }
}

/// The order on texts is transitive.
pub proof fn lemma_text_le_transitive(a: Seq<char>, b: Seq<char>, c: Seq<char>)
    requires
        text_le(a, b),
        text_le(b, c),
    ensures
        text_le(a, c),
    decreases a.len(),
{
    if a.len() > 0 && b.len() > 0 && c.len() > 0 && a[0] == b[0] && b[0] == c[0] {
        lemma_text_le_transitive(a.drop_first(), b.drop_first(), c.drop_first());
    }
}

/// Whether `a` comes before `b`, or equals it, in the ordinal order.
pub fn text_le_exec(a: &Vec<char>, b: &Vec<char>) -> (r: bool)
    ensures
        r == text_le(a@, b@),
{
    let mut i: usize = 0;
    assert(a@.skip(0) =~= a@);
    assert(b@.skip(0) =~= b@);
    while i < a.len() && i < b.len()
        invariant
            i <= a@.len(),
            i <= b@.len(),
            text_le(a@, b@) == text_le(a@.skip(i as int), b@.skip(i as int)),
        decreases a@.len() - i,
    {
        if a[i] != b[i] {
            assert(a@.skip(i as int)[0] == a@[i as int]);
            assert(b@.skip(i as int)[0] == b@[i as int]);
            return a[i] < b[i];
        }
        assert(a@.skip(i as int).drop_first() =~= a@.skip(i + 1));
        assert(b@.skip(i as int).drop_first() =~= b@.skip(i + 1));
        i += 1;
    }
    i == a.len()
}

/// The direction of a sorted view.
#[derive(Clone, Copy, Debug, PartialEq, Eq, Structural)]
pub enum SortOrder {
    /// From A to Z.
    Ascending,
    /// From Z to A.
    Descending,
}

/// `a` may stand before `b` in a view sorted in `order`.
pub open spec fn in_order(order: SortOrder, a: Seq<char>, b: Seq<char>) -> bool {
    match order {
        SortOrder::Ascending => text_le(a, b),
        SortOrder::Descending => text_le(b, a),
    }
}

/// The first names of `s` follow `order`.
pub open spec fn sorted_by_name(s: Seq<Contact>, order: SortOrder) -> bool {
    forall|i: int, j: int| 0 <= i < j < s.len() ==> in_order(order, #[trigger] s[i].first_name@, #[trigger] s[j].first_name@)
}

/// The contacts of `s` whose first name is `name`, in their order in `s`.
pub open spec fn named(s: Seq<Contact>, name: Seq<char>) -> Seq<Contact> {
    s.filter(name_is(name))
}

/// Whether a contact's first name is `name`.
pub open spec fn name_is(name: Seq<char>) -> spec_fn(Contact) -> bool {
    |c: Contact| c.first_name@ == name
}

/// `r` is `s` sorted by first name in `order`, contacts of equal first
/// name keeping their order in `s`: a permutation of `s`.
pub open spec fn is_sorted_view(s: Seq<Contact>, r: Seq<Contact>, order: SortOrder) -> bool {
    &&& sorted_by_name(r, order)
    &&& forall|name: Seq<char>| #[trigger] named(r, name) == named(s, name)
    &&& r.to_multiset() == s.to_multiset()
}

proof fn lemma_named_push(s: Seq<Contact>, c: Contact, name: Seq<char>)
    ensures
        named(s.push(c), name) == if c.first_name@ == name {
            named(s, name).push(c)
        } else {
            named(s, name)
        },
{
    reveal(Seq::filter);
    assert(s.push(c).drop_last() =~= s);
}

proof fn lemma_named_none(s: Seq<Contact>, name: Seq<char>)
    requires
        forall|i: int| 0 <= i < s.len() ==> #[trigger] s[i].first_name@ != name,
    ensures
        named(s, name) == Seq::<Contact>::empty(),
    decreases s.len(),
{
    reveal(Seq::filter);
    if s.len() > 0 {
        lemma_named_none(s.drop_last(), name);
    }
    assert(named(s, name) =~= Seq::<Contact>::empty());
}

proof fn lemma_in_order_total(order: SortOrder, a: Seq<char>, b: Seq<char>)
    ensures
        in_order(order, a, b) || in_order(order, b, a),
{
    lemma_text_le_total(a, b);
}

proof fn lemma_in_order_transitive(order: SortOrder, a: Seq<char>, b: Seq<char>, c: Seq<char>)
    requires
        in_order(order, a, b),
        in_order(order, b, c),
    ensures
        in_order(order, a, c),
{
    match order {
        SortOrder::Ascending => lemma_text_le_transitive(a, b, c),
        SortOrder::Descending => lemma_text_le_transitive(c, b, a),
    }
}

/// Inserting `c` after every contact that may precede it, and before the
/// first one that may not, keeps a sorted view sorted and stable.
proof fn lemma_insert_sorted(s: Seq<Contact>, r: Seq<Contact>, c: Contact, p: int, order: SortOrder)
    requires
        is_sorted_view(s, r, order),
        0 <= p <= r.len(),
        forall|q: int| 0 <= q < p ==> in_order(order, #[trigger] r[q].first_name@, c.first_name@),
        p < r.len() ==> !in_order(order, r[p].first_name@, c.first_name@),
    ensures
        is_sorted_view(s.push(c), r.insert(p, c), order),
{
    let r2 = r.insert(p, c);
    let k = c.first_name@;
    to_multiset_insert(r, p, c);
    to_multiset_build(s, c);
    if p < r.len() {
        lemma_in_order_total(order, r[p].first_name@, k);
    }
    assert forall|i: int, j: int| 0 <= i < j < r2.len() implies in_order(order, #[trigger] r2[i].first_name@, #[trigger] r2[j].first_name@) by {
        if j == p {
            assert(r2[i] == r[i]);
        } else if i == p {
            assert(r2[j] == r[j - 1]);
            if j - 1 > p {
                assert(in_order(order, r[p].first_name@, r[j - 1].first_name@));
                lemma_in_order_transitive(order, k, r[p].first_name@, r[j - 1].first_name@);
            }
        } else {
            let i0 = if i < p { i } else { i - 1 };
            let j0 = if j < p { j } else { j - 1 };
            assert(r2[i] == r[i0]);
            assert(r2[j] == r[j0]);
        }
    }
    let front = r.subrange(0, p);
    let back = r.subrange(p, r.len() as int);
    assert(r =~= front + back);
    assert(r2 =~= front.push(c) + back);
    assert forall|name: Seq<char>| #[trigger] named(r2, name) == named(s.push(c), name) by {
        lemma_named_push(s, c, name);
        lemma_named_push(front, c, name);
        Seq::filter_distributes_over_add(front, back, name_is(name));
        Seq::filter_distributes_over_add(front.push(c), back, name_is(name));
        assert(named(r, name) == named(s, name));
        if k == name {
            assert forall|q: int| 0 <= q < back.len() implies #[trigger] back[q].first_name@ != name by {
                if back[q].first_name@ == name && q > 0 {
                    assert(in_order(order, r[p].first_name@, r[p + q].first_name@));
                }
            }
            lemma_named_none(back, name);
            assert(named(front, name) + named(back, name) =~= named(front, name));
            assert(named(front, name).push(c) + named(back, name) =~= named(front, name).push(c));
        }
    }
}

proof fn lemma_in_order_antisymmetric(order: SortOrder, a: Seq<char>, b: Seq<char>)
    requires
        in_order(order, a, b),
        in_order(order, b, a),
    ensures
        a == b,
{
    lemma_text_le_antisymmetric(a, b);
}

/// A contact found among those named `name` stands in `s`.
proof fn lemma_named_member(s: Seq<Contact>, name: Seq<char>, i: int)
    requires
        0 <= i < named(s, name).len(),
    ensures
        exists|j: int| 0 <= j < s.len() && s[j] == named(s, name)[i],
        named(s, name)[i].first_name@ == name,
{
    let p = name_is(name);
    s.lemma_filter_pred(p, i);
    assert(s.filter(p).contains(s.filter(p)[i]));
    s.lemma_filter_contains_rev(p, s.filter(p)[i]);
}

/// Two views of `s` sorted in the same order, both stable, are the same
/// sequence.
pub proof fn lemma_sorted_view_unique(s: Seq<Contact>, x: Seq<Contact>, y: Seq<Contact>, order: SortOrder)
    requires
        is_sorted_view(s, x, order),
        is_sorted_view(s, y, order),
    ensures
        x == y,
{
    lemma_same_groups_equal(s, x, y, order);
}

/// Two sequences sorted in the same order whose contacts of each first name
/// are those of `s`, in the same order, are the same sequence.
proof fn lemma_same_groups_equal(s: Seq<Contact>, x: Seq<Contact>, y: Seq<Contact>, order: SortOrder)
    requires
        sorted_by_name(x, order),
        sorted_by_name(y, order),
        forall|name: Seq<char>| #[trigger] named(x, name) == named(s, name),
        forall|name: Seq<char>| #[trigger] named(y, name) == named(s, name),
    ensures
        x == y,
    decreases x.len() + y.len(),
{
    if x.len() == 0 || y.len() == 0 {
        if y.len() > 0 {
            lemma_named_push(y.drop_last(), y.last(), y.last().first_name@);
            assert(y.drop_last().push(y.last()) =~= y);
            lemma_named_none(x, y.last().first_name@);
            assert(named(y, y.last().first_name@).len() > 0);
            assert(named(x, y.last().first_name@) == named(s, y.last().first_name@));
        }
        if x.len() > 0 {
            lemma_named_push(x.drop_last(), x.last(), x.last().first_name@);
            assert(x.drop_last().push(x.last()) =~= x);
            lemma_named_none(y, x.last().first_name@);
            assert(named(y, x.last().first_name@) == named(s, x.last().first_name@));
        }
        assert(x =~= y);
    } else {
        let a = x.last();
        let b = y.last();
        let ka = a.first_name@;
        let kb = b.first_name@;
        assert(x.drop_last().push(a) =~= x);
        assert(y.drop_last().push(b) =~= y);
        lemma_named_push(x.drop_last(), a, ka);
        lemma_named_push(y.drop_last(), b, kb);
        lemma_named_push(x.drop_last(), a, kb);
        lemma_named_push(y.drop_last(), b, ka);
        assert(named(x, ka) == named(s, ka));
        assert(named(y, ka) == named(s, ka));
        assert(named(x, kb) == named(s, kb));
        assert(named(y, kb) == named(s, kb));
        // Some contact of y is named ka, so ka may precede kb; and the other way.
        lemma_named_member(y, ka, 0);
        let j = choose|j: int| 0 <= j < y.len() && y[j] == named(y, ka)[0];
        if j < y.len() - 1 {
            assert(in_order(order, y[j].first_name@, y[y.len() - 1].first_name@));
        } else {
            lemma_in_order_total(order, ka, ka);
        }
        lemma_named_member(x, kb, 0);
        let m = choose|m: int| 0 <= m < x.len() && x[m] == named(x, kb)[0];
        if m < x.len() - 1 {
            assert(in_order(order, x[m].first_name@, x[x.len() - 1].first_name@));
        } else {
            lemma_in_order_total(order, kb, kb);
        }
        lemma_in_order_antisymmetric(order, ka, kb);
        assert(a == named(x, ka).last());
        assert(b == named(y, ka).last());
        let xs = x.drop_last();
        let ys = y.drop_last();
        assert forall|name: Seq<char>| #[trigger] named(xs, name) == named(ys, name) by {
            lemma_named_push(xs, a, name);
            lemma_named_push(ys, b, name);
            assert(named(x, name) == named(s, name));
            assert(named(y, name) == named(s, name));
            if name == ka {
                assert(named(xs, name) =~= named(x, name).drop_last());
                assert(named(ys, name) =~= named(y, name).drop_last());
            }
        }
        assert forall|name: Seq<char>| #[trigger] named(ys, name) == named(xs, name) by {
            assert(named(xs, name) == named(ys, name));
        }
        assert(sorted_by_name(xs, order)) by {
            assert forall|i: int, k: int| 0 <= i < k < xs.len() implies in_order(order, #[trigger] xs[i].first_name@, #[trigger] xs[k].first_name@) by {
                assert(xs[i] == x[i] && xs[k] == x[k]);
            }
        }
        assert(sorted_by_name(ys, order)) by {
            assert forall|i: int, k: int| 0 <= i < k < ys.len() implies in_order(order, #[trigger] ys[i].first_name@, #[trigger] ys[k].first_name@) by {
                assert(ys[i] == y[i] && ys[k] == y[k]);
            }
        }
        lemma_same_groups_equal(xs, xs, ys, order);
    }
}

proof fn lemma_reverse_push(x: Seq<Contact>, e: Contact)
    ensures
        x.push(e).reverse() == seq![e] + x.reverse(),
{
    assert(x.push(e).reverse() =~= seq![e] + x.reverse());
}

/// Filtering by name commutes with reading backwards.
proof fn lemma_named_reverse(t: Seq<Contact>, name: Seq<char>)
    ensures
        named(t.reverse(), name) == named(t, name).reverse(),
    decreases t.len(),
{
    if t.len() == 0 {
        reveal(Seq::filter);
        assert(t.reverse() =~= t);
        assert(named(t, name).reverse() =~= named(t, name));
    } else {
        let front = t.drop_last();
        let e = t.last();
        assert(front.push(e) =~= t);
        lemma_named_reverse(front, name);
        lemma_reverse_push(front, e);
        front.reverse().lemma_filter_prepend(e, name_is(name));
        lemma_named_push(front, e, name);
        let nf = named(front, name);
        if e.first_name@ == name {
            lemma_reverse_push(nf, e);
        } else {
            assert(Seq::<Contact>::empty() + nf.reverse() =~= nf.reverse());
        }
    }
}

/// With first names pairwise distinct, each name names at most one contact.
proof fn lemma_named_at_most_one(s: Seq<Contact>, name: Seq<char>)
    requires
        forall|i: int, j: int| 0 <= i < j < s.len() ==> #[trigger] s[i].first_name@ != #[trigger] s[j].first_name@,
    ensures
        named(s, name).len() <= 1,
    decreases s.len(),
{
    if s.len() == 0 {
        reveal(Seq::filter);
    } else {
        let front = s.drop_last();
        lemma_named_at_most_one(front, name);
        lemma_named_push(front, s.last(), name);
        assert(front.push(s.last()) =~= s);
        if named(front, name).len() > 0 && s.last().first_name@ == name {
            lemma_named_member(front, name, 0);
            let j = choose|j: int| 0 <= j < front.len() && front[j] == named(front, name)[0];
            assert(s[j].first_name@ == s[s.len() - 1].first_name@);
        }
    }
}

/// With first names pairwise distinct, the view sorted from Z to A is the
/// view sorted from A to Z read backwards.
pub proof fn lemma_descending_reverses_ascending(s: Seq<Contact>, asc: Seq<Contact>, desc: Seq<Contact>)
    requires
        forall|i: int, j: int| 0 <= i < j < s.len() ==> #[trigger] s[i].first_name@ != #[trigger] s[j].first_name@,
        is_sorted_view(s, asc, SortOrder::Ascending),
        is_sorted_view(s, desc, SortOrder::Descending),
    ensures
        desc == asc.reverse(),
{
    let rev = asc.reverse();
    assert forall|i: int, j: int| 0 <= i < j < rev.len() implies in_order(SortOrder::Descending, #[trigger] rev[i].first_name@, #[trigger] rev[j].first_name@) by {
        assert(rev[i] == asc[asc.len() - 1 - i]);
        assert(rev[j] == asc[asc.len() - 1 - j]);
    }
    assert forall|name: Seq<char>| #[trigger] named(rev, name) == named(s, name) by {
        lemma_named_reverse(asc, name);
        lemma_named_at_most_one(s, name);
        assert(named(asc, name) == named(s, name));
        let n = named(s, name);
        assert(n.reverse() =~= n);
    }
    lemma_same_groups_equal(s, desc, rev, SortOrder::Descending);
}

/// The first names of `s`, in order.
pub open spec fn first_names(s: Seq<Contact>) -> Seq<Seq<char>> {
    s.map_values(|c: Contact| c.first_name@)
}

/// Two sequences sorted in the same order, with as many contacts of each
/// first name, list the same first names.
proof fn lemma_same_counts_same_names(x: Seq<Contact>, y: Seq<Contact>, order: SortOrder)
    requires
        sorted_by_name(x, order),
        sorted_by_name(y, order),
        forall|name: Seq<char>| #[trigger] named(x, name).len() == named(y, name).len(),
    ensures
        first_names(x) == first_names(y),
    decreases x.len() + y.len(),
{
    if x.len() == 0 || y.len() == 0 {
        if y.len() > 0 {
            lemma_named_push(y.drop_last(), y.last(), y.last().first_name@);
            assert(y.drop_last().push(y.last()) =~= y);
            lemma_named_none(x, y.last().first_name@);
            assert(named(x, y.last().first_name@).len() == named(y, y.last().first_name@).len());
        }
        if x.len() > 0 {
            lemma_named_push(x.drop_last(), x.last(), x.last().first_name@);
            assert(x.drop_last().push(x.last()) =~= x);
            lemma_named_none(y, x.last().first_name@);
            assert(named(x, x.last().first_name@).len() == named(y, x.last().first_name@).len());
        }
        assert(first_names(x) =~= first_names(y));
    } else {
        let a = x.last();
        let b = y.last();
        let ka = a.first_name@;
        let kb = b.first_name@;
        let xs = x.drop_last();
        let ys = y.drop_last();
        assert(xs.push(a) =~= x);
        assert(ys.push(b) =~= y);
        lemma_named_push(xs, a, ka);
        lemma_named_push(ys, b, kb);
        lemma_named_push(xs, a, kb);
        lemma_named_push(ys, b, ka);
        assert(named(x, ka).len() == named(y, ka).len());
        assert(named(x, kb).len() == named(y, kb).len());
        lemma_named_member(y, ka, 0);
        let j = choose|j: int| 0 <= j < y.len() && y[j] == named(y, ka)[0];
        if j < y.len() - 1 {
            assert(in_order(order, y[j].first_name@, y[y.len() - 1].first_name@));
        } else {
            lemma_in_order_total(order, ka, ka);
        }
        lemma_named_member(x, kb, 0);
        let m = choose|m: int| 0 <= m < x.len() && x[m] == named(x, kb)[0];
        if m < x.len() - 1 {
            assert(in_order(order, x[m].first_name@, x[x.len() - 1].first_name@));
        } else {
            lemma_in_order_total(order, kb, kb);
        }
        lemma_in_order_antisymmetric(order, ka, kb);
        assert forall|name: Seq<char>| #[trigger] named(xs, name).len() == named(ys, name).len() by {
            lemma_named_push(xs, a, name);
            lemma_named_push(ys, b, name);
            assert(named(x, name).len() == named(y, name).len());
        }
        assert(sorted_by_name(xs, order)) by {
            assert forall|i: int, k: int| 0 <= i < k < xs.len() implies in_order(order, #[trigger] xs[i].first_name@, #[trigger] xs[k].first_name@) by {
                assert(xs[i] == x[i] && xs[k] == x[k]);
            }
        }
        assert(sorted_by_name(ys, order)) by {
            assert forall|i: int, k: int| 0 <= i < k < ys.len() implies in_order(order, #[trigger] ys[i].first_name@, #[trigger] ys[k].first_name@) by {
                assert(ys[i] == y[i] && ys[k] == y[k]);
            }
        }
        lemma_same_counts_same_names(xs, ys, order);
        assert(first_names(x) =~= first_names(xs).push(ka));
        assert(first_names(y) =~= first_names(ys).push(kb));
    }
}

/// Of the same contacts, the view sorted from Z to A lists the first names
/// of the view sorted from A to Z backwards, whether or not names repeat.
pub proof fn lemma_descending_names_reverse_ascending(s: Seq<Contact>, asc: Seq<Contact>, desc: Seq<Contact>)
    requires
        is_sorted_view(s, asc, SortOrder::Ascending),
        is_sorted_view(s, desc, SortOrder::Descending),
    ensures
        first_names(desc) == first_names(asc).reverse(),
        asc.to_multiset() == s.to_multiset(),
        desc.to_multiset() == s.to_multiset(),
{
    let rev = asc.reverse();
    assert forall|i: int, j: int| 0 <= i < j < rev.len() implies in_order(SortOrder::Descending, #[trigger] rev[i].first_name@, #[trigger] rev[j].first_name@) by {
        assert(rev[i] == asc[asc.len() - 1 - i]);
        assert(rev[j] == asc[asc.len() - 1 - j]);
    }
    assert forall|name: Seq<char>| #[trigger] named(desc, name).len() == named(rev, name).len() by {
        lemma_named_reverse(asc, name);
        assert(named(asc, name) == named(s, name));
        assert(named(desc, name) == named(s, name));
    }
    lemma_same_counts_same_names(desc, rev, SortOrder::Descending);
    assert(first_names(rev) =~= first_names(asc).reverse());
}

/// After a contact is created, the listing in creation order shows the
/// contacts that were there before, then the new one, holding exactly the
/// values entered (the phone number in its canonical form).
pub proof fn lemma_created_contact_listed_last(
    before: Seq<Contact>,
    after: Seq<Contact>,
    listed: Seq<Contact>,
    first_name: Seq<char>,
    last_name: Seq<char>,
    email: Seq<char>,
    address: Seq<char>,
    phone_number: Seq<char>,
)
    requires
        appended(before, after, first_name, last_name, email, address, phone_number),
        listed == after,
    ensures
        listed.len() == before.len() + 1,
        listed.subrange(0, before.len() as int) == before,
        listed[before.len() as int].holds(first_name, last_name, email, address, phone_number),
{
    assert(listed.subrange(0, before.len() as int) =~= after.drop_last());
}

impl PhoneBook {
    /// The contacts sorted by first name in `order`, by ordinal comparison;
    /// contacts with equal first names keep their creation order. The book
    /// itself is left as it is.
    pub fn sorted_view(&self, order: SortOrder) -> (r: Vec<&Contact>)
        ensures
            is_sorted_view(self@, derefs(r@), order),
    {
        let contacts = self.contacts();
        let mut r: Vec<&Contact> = Vec::new();
        let mut keys: Vec<Vec<char>> = Vec::new();
        let mut i: usize = 0;
        assert(derefs(r@) =~= Seq::<Contact>::empty());
        assert(contacts@.subrange(0, 0) =~= Seq::<Contact>::empty());
        while i < contacts.len()
            invariant
                contacts@ == self@,
                i <= contacts@.len(),
                keys@.len() == r@.len(),
                forall|q: int| 0 <= q < r@.len() ==> (#[trigger] keys@[q])@ == derefs(r@)[q].first_name@,
                is_sorted_view(contacts@.subrange(0, i as int), derefs(r@), order),
            decreases contacts@.len() - i,
        {
            let c = &contacts[i];
            let k = chars_of(c.first_name.as_str());
            let mut p: usize = 0;
            while p < r.len()
                invariant
                    keys@.len() == r@.len(),
                    p <= r@.len(),
                    forall|q: int| 0 <= q < r@.len() ==> (#[trigger] keys@[q])@ == derefs(r@)[q].first_name@,
                    forall|q: int| 0 <= q < p ==> in_order(order, #[trigger] derefs(r@)[q].first_name@, k@),
                ensures
                    p <= r@.len(),
                    forall|q: int| 0 <= q < p ==> in_order(order, #[trigger] derefs(r@)[q].first_name@, k@),
                    p < r@.len() ==> !in_order(order, derefs(r@)[p as int].first_name@, k@),
                decreases r@.len() - p,
            {
                let before = match order {
                    SortOrder::Ascending => text_le_exec(&keys[p], &k),
                    SortOrder::Descending => text_le_exec(&k, &keys[p]),
                };
                if !before {
                    break;
                }
                p += 1;
            }
            proof {
                lemma_insert_sorted(contacts@.subrange(0, i as int), derefs(r@), *c, p as int, order);
                assert(contacts@.subrange(0, i + 1) =~= contacts@.subrange(0, i as int).push(*c));
            }
            let ghost old_r = r@;
            let ghost old_keys = keys@;
            r.insert(p, c);
            keys.insert(p, k);
            assert(derefs(r@) =~= derefs(old_r).insert(p as int, *c));
            i += 1;
        }
        assert(contacts@.subrange(0, i as int) =~= self@);
        r
    }

    /// The contacts in creation order.
    pub fn contact_refs(&self) -> (r: Vec<&Contact>)
        ensures
            derefs(r@) == self@,
    {
        let contacts = self.contacts();
        let mut r: Vec<&Contact> = Vec::new();
        let mut i: usize = 0;
        while i < contacts.len()
            invariant
                contacts@ == self@,
                i <= contacts@.len(),
                derefs(r@) == contacts@.subrange(0, i as int),
            decreases contacts@.len() - i,
        {
            let ghost old_r = r@;
            r.push(&contacts[i]);
            assert(derefs(r@) =~= derefs(old_r).push(contacts@[i as int]));
            i += 1;
            assert(derefs(r@) =~= contacts@.subrange(0, i as int));
        }
        assert(contacts@.subrange(0, i as int) =~= self@);
        r
    }

    /// The contacts for a listing in `order`: `asc` sorts by first name A
    /// to Z, `desc` Z to A, and an empty order keeps creation order; any
    /// other order is refused. The book itself is left as it is.
    pub fn list_contacts_in_order(&self, order: &str) -> (r: Result<Vec<&Contact>, BookError>)
        ensures
            order@ == "asc"@ ==> r is Ok && is_sorted_view(self@, derefs(r->Ok_0@), SortOrder::Ascending),
            order@ == "desc"@ ==> r is Ok && is_sorted_view(self@, derefs(r->Ok_0@), SortOrder::Descending),
            order@ == ""@ ==> r is Ok && derefs(r->Ok_0@) == self@,
            order@ != "asc"@ && order@ != "desc"@ && order@ != ""@
                ==> r == Err::<Vec<&Contact>, BookError>(BookError::InvalidOrder),
    {
        proof {
            reveal_strlit("asc");
            reveal_strlit("desc");
            reveal_strlit("");
            assert("asc"@.len() == 3 && "desc"@.len() == 4 && ""@.len() == 0);
        }
        if same_text(order, "asc") {
            Ok(self.sorted_view(SortOrder::Ascending))
        } else if same_text(order, "desc") {
            Ok(self.sorted_view(SortOrder::Descending))
        } else if same_text(order, "") {
            Ok(self.contact_refs())
        } else {
            Err(BookError::InvalidOrder)
        }
    }
}

} // verus!
