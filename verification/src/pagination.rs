//! Windowed querying over the aggregate store.
//!
//! Sorting happens before the window is cut, the total is computed against
//! the filter alone, and `has_next_page`/`has_previous_page` are derived from
//! total, skip and window — never tracked on their own. Ties on the requested
//! sort field are broken by the id, so repeated calls with the same filter,
//! sort and window always see one and the same order.

use vstd::prelude::*;
use vstd::multiset::Multiset;
use vstd::string::StrSliceExecFns;
use vstd::seq_lib::lemma_multiset_commutative;
use crate::ids::Uuid;
use crate::order_datatypes::{OrderDirection, WishlistOrderField};
use crate::wishlist::{views_of, Wishlist, WishlistView};
use crate::wishlist_connection::{AdditionalFields, WishlistConnection};
use crate::wishlist_store::WishlistStore;

verus! {

/// Strict lexicographic order on character sequences, by code point; a proper
/// prefix comes first.
pub open spec fn chars_lt(a: Seq<char>, b: Seq<char>) -> bool
    decreases a.len(),
{
    if b.len() == 0 {
        false
    } else if a.len() == 0 {
        true
    } else if a[0] != b[0] {
        (a[0] as u32) < (b[0] as u32)
    } else {
        chars_lt(a.drop_first(), b.drop_first())
    }
}

/// At most one of `chars_lt(a, b)` and `chars_lt(b, a)` holds.
proof fn lemma_chars_lt_asym(a: Seq<char>, b: Seq<char>)
    ensures
        chars_lt(a, b) ==> !chars_lt(b, a),
    decreases a.len(),
{
    if a.len() > 0 && b.len() > 0 && a[0] == b[0] {
        lemma_chars_lt_asym(a.drop_first(), b.drop_first());
    }
}

/// Sequences neither of which comes first are equal.
proof fn lemma_chars_lt_connex(a: Seq<char>, b: Seq<char>)
    ensures
        !chars_lt(a, b) && !chars_lt(b, a) ==> a == b,
    decreases a.len(),
{
    if a.len() == 0 && b.len() == 0 {
        assert(a =~= b);
    } else if a.len() > 0 && b.len() > 0 && a[0] == b[0] {
        lemma_chars_lt_connex(a.drop_first(), b.drop_first());
        if !chars_lt(a, b) && !chars_lt(b, a) {
            assert(a.drop_first() == b.drop_first());
            assert(a.len() == b.len());
            assert forall|i: int| 0 <= i < a.len() implies a[i] == b[i] by {
                if i > 0 {
                    assert(a.drop_first()[i - 1] == a[i]);
                    assert(b.drop_first()[i - 1] == b[i]);
                }
            }
            assert(a =~= b);
        }
    } else if a.len() > 0 && b.len() > 0 {
        if !chars_lt(a, b) && !chars_lt(b, a) {
            assert((a[0] as u32) >= (b[0] as u32));
            assert((a[0] as u32) <= (b[0] as u32));
            vstd::utf8::char_u32_cast(a[0], a[0] as u32);
            vstd::utf8::char_u32_cast(b[0], b[0] as u32);
            assert(a[0] == b[0]);
        }
    }
}

/// Lexicographic order is transitive.
proof fn lemma_chars_lt_trans(a: Seq<char>, b: Seq<char>, c: Seq<char>)
    ensures
        chars_lt(a, b) && chars_lt(b, c) ==> chars_lt(a, c),
    decreases a.len(),
{
    if chars_lt(a, b) && chars_lt(b, c) {
        if a.len() > 0 && b.len() > 0 && c.len() > 0 && a[0] == b[0] && b[0] == c[0] {
            lemma_chars_lt_trans(a.drop_first(), b.drop_first(), c.drop_first());
        }
    }
}

/// Strict order on the requested sort field alone.
pub open spec fn field_lt(a: WishlistView, b: WishlistView, field: WishlistOrderField) -> bool {
    match field {
        WishlistOrderField::Id => a._id.value < b._id.value,
        WishlistOrderField::UserId => a.user_id.value < b.user_id.value,
        WishlistOrderField::Name => chars_lt(a.name, b.name),
        WishlistOrderField::CreatedAt => a.created_at < b.created_at,
        WishlistOrderField::LastUpdatedAt => a.last_updated_at < b.last_updated_at,
    }
}

/// Everything insertion needs of the field order, over any three wishlists:
/// asymmetry, transitivity, and composition through ties.
proof fn lemma_field_order(a: WishlistView, b: WishlistView, c: WishlistView, field: WishlistOrderField)
    ensures
        field_lt(a, b, field) ==> !field_lt(b, a, field),
        field_lt(b, c, field) ==> !field_lt(c, b, field),
        field_lt(a, c, field) ==> !field_lt(c, a, field),
        field_lt(a, b, field) && field_lt(b, c, field) ==> field_lt(a, c, field),
        field_lt(c, b, field) && field_lt(b, a, field) ==> field_lt(c, a, field),
        !field_lt(a, b, field) && !field_lt(b, a, field) ==> (field_lt(b, c, field) == field_lt(
            a,
            c,
            field,
        ) && field_lt(c, b, field) == field_lt(c, a, field)),
        !field_lt(b, c, field) && !field_lt(c, b, field) ==> (field_lt(a, b, field) == field_lt(
            a,
            c,
            field,
        ) && field_lt(b, a, field) == field_lt(c, a, field)),
{
    if field == WishlistOrderField::Name {
        lemma_chars_lt_asym(a.name, b.name);
        lemma_chars_lt_asym(b.name, c.name);
        lemma_chars_lt_asym(a.name, c.name);
        lemma_chars_lt_connex(a.name, b.name);
        lemma_chars_lt_connex(b.name, c.name);
        lemma_chars_lt_connex(a.name, c.name);
        lemma_chars_lt_trans(a.name, b.name, c.name);
        lemma_chars_lt_trans(c.name, b.name, a.name);
    }
}

/// Whether `a` is strictly ordered before `b`: by the requested field in the
/// requested direction, ties broken by ascending id.
pub open spec fn wl_before(
    a: WishlistView,
    b: WishlistView,
    field: WishlistOrderField,
    dir: OrderDirection,
) -> bool {
    if field_lt(a, b, field) {
        dir == OrderDirection::Asc
    } else if field_lt(b, a, field) {
        dir == OrderDirection::Desc
    } else {
        a._id.value < b._id.value
    }
}

/// Whether `a` may stand at or before `b` in sorted order.
pub open spec fn wl_le(
    a: WishlistView,
    b: WishlistView,
    field: WishlistOrderField,
    dir: OrderDirection,
) -> bool {
    !wl_before(b, a, field, dir)
}

/// Whether `s` is sorted under the field, direction and id tie-break.
pub open spec fn wls_sorted(
    s: Seq<WishlistView>,
    field: WishlistOrderField,
    dir: OrderDirection,
) -> bool {
    forall|i: int, j: int|
        0 <= i < j < s.len() ==> wl_le(#[trigger] s[i], #[trigger] s[j], field, dir)
}

/// At most one of two distinct placements is strict.
proof fn lemma_wl_before_asym(
    a: WishlistView,
    b: WishlistView,
    field: WishlistOrderField,
    dir: OrderDirection,
)
    ensures
        wl_before(a, b, field, dir) ==> !wl_before(b, a, field, dir),
{
    lemma_field_order(a, b, b, field);
}

/// The non-strict order is transitive.
proof fn lemma_wl_le_trans(
    a: WishlistView,
    b: WishlistView,
    c: WishlistView,
    field: WishlistOrderField,
    dir: OrderDirection,
)
    requires
        wl_le(a, b, field, dir),
        wl_le(b, c, field, dir),
    ensures
        wl_le(a, c, field, dir),
{
    lemma_field_order(a, b, c, field);
    lemma_field_order(c, b, a, field);
}

/// `x` placed into `s` before the first element it is ordered before.
pub open spec fn insert_wl_sorted(
    x: WishlistView,
    s: Seq<WishlistView>,
    field: WishlistOrderField,
    dir: OrderDirection,
) -> Seq<WishlistView>
    decreases s.len(),
{
    if s.len() > 0 && wl_before(s.first(), x, field, dir) {
        seq![s.first()] + insert_wl_sorted(x, s.drop_first(), field, dir)
    } else {
        seq![x] + s
    }
}

/// Insertion sort of wishlist values, element by element from the front.
pub open spec fn sort_wishlists_spec(
    s: Seq<WishlistView>,
    field: WishlistOrderField,
    dir: OrderDirection,
) -> Seq<WishlistView>
    decreases s.len(),
{
    if s.len() == 0 {
        Seq::empty()
    } else {
        insert_wl_sorted(s.last(), sort_wishlists_spec(s.drop_last(), field, dir), field, dir)
    }
}

/// Inserting at the first admissible position is what `insert_wl_sorted`
/// writes down.
proof fn lemma_insert_wl_position(
    x: WishlistView,
    s: Seq<WishlistView>,
    field: WishlistOrderField,
    dir: OrderDirection,
    j: int,
)
    requires
        0 <= j <= s.len(),
        forall|t: int| 0 <= t < j ==> wl_before(#[trigger] s[t], x, field, dir),
        j < s.len() ==> !wl_before(s[j], x, field, dir),
    ensures
        insert_wl_sorted(x, s, field, dir) == s.insert(j, x),
    decreases j,
{
    if j == 0 {
        assert(insert_wl_sorted(x, s, field, dir) == seq![x] + s);
        assert(s.insert(0, x) =~= seq![x] + s);
    } else {
        assert(wl_before(s[0], x, field, dir));
        assert forall|t: int| 0 <= t < j - 1 implies wl_before(
            #[trigger] s.drop_first()[t],
            x,
            field,
            dir,
        ) by {
            assert(s.drop_first()[t] == s[t + 1]);
        }
        if j < s.len() {
            assert(s.drop_first()[j - 1] == s[j]);
        }
        lemma_insert_wl_position(x, s.drop_first(), field, dir, j - 1);
        assert(insert_wl_sorted(x, s, field, dir) == seq![s.first()] + s.drop_first().insert(
            j - 1,
            x,
        ));
        assert(seq![s.first()] + s.drop_first().insert(j - 1, x) =~= s.insert(j, x));
    }
}

/// Sorted insertion keeps order and adds exactly the new element.
proof fn lemma_insert_wl_sorted_props(
    x: WishlistView,
    s: Seq<WishlistView>,
    field: WishlistOrderField,
    dir: OrderDirection,
)
    requires
        wls_sorted(s, field, dir),
    ensures
        wls_sorted(insert_wl_sorted(x, s, field, dir), field, dir),
        insert_wl_sorted(x, s, field, dir).to_multiset() == s.to_multiset().insert(x),
        insert_wl_sorted(x, s, field, dir).len() == s.len() + 1,
    decreases s.len(),
{
    broadcast use vstd::multiset::group_multiset_axioms;

    let out = insert_wl_sorted(x, s, field, dir);
    if s.len() > 0 && wl_before(s.first(), x, field, dir) {
        assert forall|i: int, j: int|
            0 <= i < j < s.drop_first().len() implies wl_le(
            #[trigger] s.drop_first()[i],
            #[trigger] s.drop_first()[j],
            field,
            dir,
        ) by {
            assert(s.drop_first()[i] == s[i + 1] && s.drop_first()[j] == s[j + 1]);
        }
        lemma_insert_wl_sorted_props(x, s.drop_first(), field, dir);
        let tail = insert_wl_sorted(x, s.drop_first(), field, dir);
        assert(out == seq![s.first()] + tail);
        assert forall|i: int, j: int| 0 <= i < j < out.len() implies wl_le(
            out[i],
            out[j],
            field,
            dir,
        ) by {
            if i == 0 {
                assert(out[j] == tail[j - 1]);
                assert(tail.to_multiset().count(tail[j - 1]) > 0) by {
                    tail.to_multiset_ensures();
                }
                assert(s.drop_first().to_multiset().insert(x).count(tail[j - 1]) > 0);
                if tail[j - 1] == x {
                    lemma_wl_before_asym(s[0], x, field, dir);
                } else {
                    assert(s.drop_first().to_multiset().count(tail[j - 1]) > 0);
                    assert(s.drop_first().contains(tail[j - 1])) by {
                        s.drop_first().to_multiset_ensures();
                    }
                    let t = choose|t: int|
                        0 <= t < s.drop_first().len() && s.drop_first()[t] == tail[j - 1];
                    assert(s[t + 1] == tail[j - 1]);
                    assert(wl_le(s[0], s[t + 1], field, dir));
                }
            } else {
                assert(out[i] == tail[i - 1] && out[j] == tail[j - 1]);
            }
        }
        lemma_multiset_commutative(seq![s.first()], tail);
        assert(seq![s.first()].to_multiset() == Multiset::<WishlistView>::empty().insert(
            s.first(),
        )) by {
            assert(seq![s.first()] =~= Seq::<WishlistView>::empty().push(s.first()));
            Seq::<WishlistView>::empty().to_multiset_ensures();
        }
        assert(seq![s.first()] + s.drop_first() =~= s);
        lemma_multiset_commutative(seq![s.first()], s.drop_first());
        assert(out.to_multiset() =~= s.to_multiset().insert(x));
    } else {
        assert(out == seq![x] + s);
        assert forall|i: int, j: int| 0 <= i < j < out.len() implies wl_le(
            out[i],
            out[j],
            field,
            dir,
        ) by {
            if i == 0 {
                assert(out[j] == s[j - 1]);
                assert(wl_le(x, s[0], field, dir));
                if j > 1 {
                    assert(wl_le(s[0], s[j - 1], field, dir));
                    lemma_wl_le_trans(x, s[0], s[j - 1], field, dir);
                }
            } else {
                assert(out[i] == s[i - 1] && out[j] == s[j - 1]);
            }
        }
        lemma_multiset_commutative(seq![x], s);
        assert(seq![x].to_multiset() == Multiset::<WishlistView>::empty().insert(x)) by {
            assert(seq![x] =~= Seq::<WishlistView>::empty().push(x));
            Seq::<WishlistView>::empty().to_multiset_ensures();
        }
        assert(out.to_multiset() =~= s.to_multiset().insert(x));
    }
}

/// The sort writes a sorted permutation: same contents, ordered, same length.
pub proof fn lemma_sort_wishlists_props(
    s: Seq<WishlistView>,
    field: WishlistOrderField,
    dir: OrderDirection,
)
    ensures
        wls_sorted(sort_wishlists_spec(s, field, dir), field, dir),
        sort_wishlists_spec(s, field, dir).to_multiset() == s.to_multiset(),
        sort_wishlists_spec(s, field, dir).len() == s.len(),
    decreases s.len(),
{
    broadcast use vstd::multiset::group_multiset_axioms;

    if s.len() == 0 {
        assert(s =~= Seq::<WishlistView>::empty());
    } else {
        lemma_sort_wishlists_props(s.drop_last(), field, dir);
        lemma_insert_wl_sorted_props(
            s.last(),
            sort_wishlists_spec(s.drop_last(), field, dir),
            field,
            dir,
        );
        s.drop_last().to_multiset_ensures();
        assert(s.drop_last().push(s.last()).to_multiset() =~= s.drop_last().to_multiset().insert(
            s.last(),
        ));
        assert(s.drop_last().push(s.last()) =~= s);
        assert(s.to_multiset() == s.drop_last().to_multiset().insert(s.last()));
        assert(sort_wishlists_spec(s, field, dir).to_multiset() == insert_wl_sorted(
            s.last(),
            sort_wishlists_spec(s.drop_last(), field, dir),
            field,
            dir,
        ).to_multiset());
        assert(sort_wishlists_spec(s, field, dir).to_multiset() == s.to_multiset());
    }
}

/// Whether `a`'s characters come lexicographically before `b`'s.
fn chars_lt_exec(a: &str, b: &str) -> (r: bool)
    ensures
        r == chars_lt(a@, b@),
{
    let a_len = a.unicode_len();
    let b_len = b.unicode_len();
    let mut i: usize = 0;
    proof {
        assert(a@.skip(0) =~= a@);
        assert(b@.skip(0) =~= b@);
    }
    while i < a_len && i < b_len
        invariant
            i <= a@.len(),
            i <= b@.len(),
            a_len == a@.len(),
            b_len == b@.len(),
            chars_lt(a@, b@) == chars_lt(a@.skip(i as int), b@.skip(i as int)),
        decreases a@.len() - i,
    {
        let ca = a.get_char(i);
        let cb = b.get_char(i);
        proof {
            assert(a@.skip(i as int)[0] == a@[i as int]);
            assert(b@.skip(i as int)[0] == b@[i as int]);
            assert(a@.skip(i as int).drop_first() =~= a@.skip(i + 1));
            assert(b@.skip(i as int).drop_first() =~= b@.skip(i + 1));
        }
        if ca != cb {
            return (ca as u32) < (cb as u32);
        }
        i = i + 1;
    }
    proof {
        if i == a@.len() && i < b@.len() {
            assert(chars_lt(a@.skip(i as int), b@.skip(i as int)));
        } else {
            assert(!chars_lt(a@.skip(i as int), b@.skip(i as int)));
        }
    }
    a_len < b_len
}

/// Whether `a` sorts strictly before `b` under the field, direction and
/// id tie-break.
fn wl_before_exec(a: &Wishlist, b: &Wishlist, field: WishlistOrderField, dir: OrderDirection) -> (r:
    bool)
    ensures
        r == wl_before(a@, b@, field, dir),
{
    let ab = field_lt_exec(a, b, field);
    let ba = field_lt_exec(b, a, field);
    if ab {
        matches!(dir, OrderDirection::Asc)
    } else if ba {
        matches!(dir, OrderDirection::Desc)
    } else {
        a._id.value < b._id.value
    }
}

/// Whether `a` is strictly below `b` on the requested field alone.
fn field_lt_exec(a: &Wishlist, b: &Wishlist, field: WishlistOrderField) -> (r: bool)
    ensures
        r == field_lt(a@, b@, field),
{
    match field {
        WishlistOrderField::Id => a._id.value < b._id.value,
        WishlistOrderField::UserId => a.user._id.value < b.user._id.value,
        WishlistOrderField::Name => chars_lt_exec(a.name.as_str(), b.name.as_str()),
        WishlistOrderField::CreatedAt => a.created_at < b.created_at,
        WishlistOrderField::LastUpdatedAt => a.last_updated_at < b.last_updated_at,
    }
}

/// Sorts wishlists by the requested field and direction, ids breaking ties.
fn sort_wishlists(v: &mut Vec<Wishlist>, field: WishlistOrderField, dir: OrderDirection)
    ensures
        views_of(final(v)@) == sort_wishlists_spec(views_of(old(v)@), field, dir),
{
    let ghost input = views_of(v@);
    let mut result: Vec<Wishlist> = Vec::new();
    let mut k: usize = 0;
    proof {
        assert(views_of(v@).len() == v@.len());
        assert(views_of(result@) =~= Seq::<WishlistView>::empty());
        assert(input.subrange(0, 0) =~= Seq::<WishlistView>::empty());
    }
    while k < v.len()
        invariant
            k <= v@.len(),
            input == views_of(v@),
            input.len() == v@.len(),
            views_of(result@) == sort_wishlists_spec(input.subrange(0, k as int), field, dir),
            views_of(result@).len() == result@.len(),
        decreases v@.len() - k,
    {
        let x = v[k].duplicate();
        let ghost xv = x@;
        proof {
            assert(views_of(v@)[k as int] == v@[k as int]@);
        }
        let mut j: usize = 0;
        while j < result.len() && wl_before_exec(&result[j], &x, field, dir)
            invariant
                j <= result@.len(),
                views_of(result@).len() == result@.len(),
                forall|t: int|
                    0 <= t < j ==> wl_before(#[trigger] views_of(result@)[t], xv, field, dir),
                xv == x@,
            decreases result@.len() - j,
        {
            proof {
                assert(views_of(result@)[j as int] == result@[j as int]@);
            }
            j = j + 1;
        }
        proof {
            if j < result@.len() {
                assert(views_of(result@)[j as int] == result@[j as int]@);
            }
            lemma_insert_wl_position(xv, views_of(result@), field, dir, j as int);
        }
        let ghost prev = result@;
        result.insert(j, x);
        proof {
            assert forall|t: int| 0 <= t < result@.len() implies views_of(result@)[t] == views_of(
                prev,
            ).insert(j as int, xv)[t] by {
                assert(views_of(result@)[t] == result@[t]@);
                if t < j as int {
                    assert(result@[t] == prev[t]);
                    assert(views_of(prev)[t] == prev[t]@);
                } else if t == j as int {
                    assert(result@[t]@ == xv);
                } else {
                    assert(result@[t] == prev[t - 1]);
                    assert(views_of(prev)[t - 1] == prev[t - 1]@);
                }
            }
            assert(views_of(result@) =~= views_of(prev).insert(j as int, xv));
            assert(input.subrange(0, k + 1).drop_last() =~= input.subrange(0, k as int));
            assert(input.subrange(0, k + 1).last() == input[k as int]);
        }
        k = k + 1;
    }
    proof {
        assert(input.subrange(0, input.len() as int) =~= input);
    }
    *v = result;
}

/// Whether a wishlist passes the filter: no filter admits everything, a user
/// filter admits the wishlists that user owns.
pub open spec fn matches_filter(w: WishlistView, filter_user: Option<Uuid>) -> bool {
    match filter_user {
        None => true,
        Some(u) => w.user_id == u,
    }
}

/// The wishlists passing the filter, in storage order.
pub open spec fn filtered_views(s: Seq<WishlistView>, filter_user: Option<Uuid>) -> Seq<
    WishlistView,
>
    decreases s.len(),
{
    if s.len() == 0 {
        Seq::empty()
    } else {
        filtered_views(s.drop_last(), filter_user) + (if matches_filter(s.last(), filter_user) {
            seq![s.last()]
        } else {
            Seq::empty()
        })
    }
}

/// What one page shows, given everything sorted: the requested window, cut
/// down to what exists.
pub open spec fn sorted_page(
    store: Seq<WishlistView>,
    filter_user: Option<Uuid>,
    field: WishlistOrderField,
    dir: OrderDirection,
) -> Seq<WishlistView> {
    sort_wishlists_spec(filtered_views(store, filter_user), field, dir)
}

/// The skip count a caller asked for, zero by default.
pub open spec fn skip64_of(skip: Option<u64>) -> u64 {
    match skip {
        None => 0,
        Some(s) => s,
    }
}

/// Where a page starts: `skip`, capped at the total.
pub open spec fn window_low(skip: u64, len: int) -> int {
    if skip < len {
        skip as int
    } else {
        len
    }
}

/// Where a page ends: `first` items past the start, capped at the total.
pub open spec fn window_high(skip: u64, first: Option<u32>, len: int) -> int {
    match first {
        Some(f) => if window_low(skip, len) + f < len {
            window_low(skip, len) + f
        } else {
            len
        },
        None => len,
    }
}

/// One windowed, sorted, counted page over the stored wishlists.
///
/// The total reflects the filter alone; `has_next_page` and
/// `has_previous_page` are derived from total, skip and window.
pub fn paginate(
    store: &WishlistStore,
    filter_user: Option<Uuid>,
    field: WishlistOrderField,
    dir: OrderDirection,
    skip: u64,
    first: Option<u32>,
) -> (r: WishlistConnection)
    ensures
        ({
            let base = sorted_page(store@, filter_user, field, dir);
            let lo = window_low(skip, base.len() as int);
            let hi = window_high(skip, first, base.len() as int);
            &&& views_of(r.nodes@) == base.subrange(lo, hi)
            &&& r.additional_fields.total_count == filtered_views(store@, filter_user).len()
            &&& r.has_next_page == (base.len() > skip + r.nodes@.len())
            &&& r.has_previous_page == (skip > 0)
        }),
{
    let all = store.all();
    let ghost store_views = store@;
    let mut matching: Vec<Wishlist> = Vec::new();
    let mut i: usize = 0;
    proof {
        assert(views_of(all@).len() == all@.len());
        assert(views_of(matching@) =~= Seq::<WishlistView>::empty());
        assert(filtered_views(store_views.subrange(0, 0), filter_user) =~= Seq::<
            WishlistView,
        >::empty());
        assert(store_views.subrange(0, 0) =~= Seq::<WishlistView>::empty());
    }
    while i < all.len()
        invariant
            i <= all@.len(),
            views_of(all@) == store_views,
            store_views.len() == all@.len(),
            views_of(matching@) == filtered_views(
                store_views.subrange(0, i as int),
                filter_user,
            ),
            views_of(matching@).len() == matching@.len(),
        decreases all@.len() - i,
    {
        proof {
            assert(views_of(all@)[i as int] == all@[i as int]@);
            assert(store_views.subrange(0, i + 1).drop_last() =~= store_views.subrange(
                0,
                i as int,
            ));
            assert(store_views.subrange(0, i + 1).last() == store_views[i as int]);
        }
        let keep = match &filter_user {
            None => true,
            Some(u) => {
                let owner = all[i].user._id;
                owner.value == u.value
            },
        };
        proof {
            assert(keep == matches_filter(store_views[i as int], filter_user));
        }
        if keep {
            let ghost prev = matching@;
            let w = all[i].duplicate();
            matching.push(w);
            proof {
                assert forall|t: int|
                    0 <= t < matching@.len() implies views_of(matching@)[t] == views_of(prev).push(
                    store_views[i as int],
                )[t] by {
                    assert(views_of(matching@)[t] == matching@[t]@);
                    if t < prev.len() {
                        assert(matching@[t] == prev[t]);
                        assert(views_of(prev)[t] == prev[t]@);
                    }
                }
                assert(views_of(matching@) =~= views_of(prev).push(store_views[i as int]));
                assert(views_of(prev).push(store_views[i as int]) =~= filtered_views(
                    store_views.subrange(0, i + 1),
                    filter_user,
                ));
            }
        } else {
            proof {
                assert(filtered_views(store_views.subrange(0, i + 1), filter_user)
                    =~= filtered_views(store_views.subrange(0, i as int), filter_user));
            }
        }
        i = i + 1;
    }
    proof {
        assert(store_views.subrange(0, store_views.len() as int) =~= store_views);
    }
    let ghost filtered = filtered_views(store_views, filter_user);
    let total: usize = matching.len();
    sort_wishlists(&mut matching, field, dir);
    proof {
        lemma_sort_wishlists_props(filtered, field, dir);
    }
    let lo: usize = if skip < total as u64 {
        skip as usize
    } else {
        total
    };
    let hi: usize = match first {
        Some(f) => {
            if (f as usize) < total - lo {
                lo + (f as usize)
            } else {
                total
            }
        },
        None => total,
    };
    let mut nodes: Vec<Wishlist> = Vec::new();
    let mut t: usize = lo;
    proof {
        assert(views_of(nodes@) =~= views_of(matching@).subrange(lo as int, lo as int));
        assert(views_of(matching@).len() == matching@.len());
    }
    while t < hi
        invariant
            lo <= t <= hi <= matching@.len(),
            views_of(matching@).len() == matching@.len(),
            views_of(nodes@) == views_of(matching@).subrange(lo as int, t as int),
            views_of(nodes@).len() == nodes@.len(),
        decreases hi - t,
    {
        let ghost prev = nodes@;
        let w = matching[t].duplicate();
        nodes.push(w);
        proof {
            assert(views_of(matching@)[t as int] == matching@[t as int]@);
            assert forall|q: int|
                0 <= q < nodes@.len() implies views_of(nodes@)[q] == views_of(matching@).subrange(
                lo as int,
                t + 1,
            )[q] by {
                assert(views_of(nodes@)[q] == nodes@[q]@);
                if q < prev.len() {
                    assert(nodes@[q] == prev[q]);
                    assert(views_of(prev)[q] == prev[q]@);
                    assert(views_of(prev)[q] == views_of(matching@).subrange(
                        lo as int,
                        t as int,
                    )[q]);
                }
            }
            assert(views_of(nodes@) =~= views_of(matching@).subrange(lo as int, t + 1));
        }
        t = t + 1;
    }
    let has_next_page = (total as u64) > skip + (nodes.len() as u64);
    let has_previous_page = skip > 0;
    WishlistConnection {
        nodes,
        has_previous_page,
        has_next_page,
        additional_fields: AdditionalFields { total_count: total as u64 },
    }
}

/// The window one call shows, as a plain function of the sorted whole.
pub open spec fn page_window(s: Seq<WishlistView>, skip: int, k: int) -> Seq<WishlistView> {
    let lo = if skip < s.len() {
        skip
    } else {
        s.len() as int
    };
    let hi = if skip + k < s.len() {
        skip + k
    } else {
        s.len() as int
    };
    if lo <= hi {
        s.subrange(lo, hi)
    } else {
        Seq::empty()
    }
}

/// The first `n` pages of size `k`, concatenated in order of their windows.
pub open spec fn pages_concat(s: Seq<WishlistView>, k: int, n: int) -> Seq<WishlistView>
    decreases n,
{
    if n <= 0 {
        Seq::empty()
    } else {
        pages_concat(s, k, n - 1) + page_window(s, (n - 1) * k, k)
    }
}

/// The first `n` pages together are exactly the first `n * k` records.
proof fn lemma_pages_cover(s: Seq<WishlistView>, k: int, n: int)
    requires
        k >= 1,
        n >= 0,
    ensures
        pages_concat(s, k, n) == s.subrange(
            0,
            if n * k < s.len() {
                n * k
            } else {
                s.len() as int
            },
        ),
    decreases n,
{
    if n == 0 {
        assert(n * k == 0) by (nonlinear_arith)
            requires
                n == 0,
        ;
        assert(pages_concat(s, k, 0) =~= s.subrange(0, 0));
    } else {
        lemma_pages_cover(s, k, n - 1);
        assert((n - 1) * k >= 0 && (n - 1) * k + k == n * k && (n - 1) * k <= n * k)
            by (nonlinear_arith)
            requires
                k >= 1,
                n >= 1,
        ;
        let a = if (n - 1) * k < s.len() {
            (n - 1) * k
        } else {
            s.len() as int
        };
        let b = if n * k < s.len() {
            n * k
        } else {
            s.len() as int
        };
        assert(page_window(s, (n - 1) * k, k) == s.subrange(a, b));
        assert(s.subrange(0, a) + s.subrange(a, b) =~= s.subrange(0, b));
        assert(pages_concat(s, k, n) == pages_concat(s, k, n - 1) + page_window(s, (n - 1) * k, k));
        assert(pages_concat(s, k, n - 1) == s.subrange(0, a));
        assert(pages_concat(s, k, n) == s.subrange(0, b));
        assert(b == if n * k < s.len() {
            n * k
        } else {
            s.len() as int
        });
    }
}

/// Reading pages at `skip = 0, k, 2k, …` with a fixed sort and no concurrent
/// writes reconstructs the whole filtered set: nothing doubled, nothing lost.
pub proof fn lemma_pages_reconstruct(s: Seq<WishlistView>, k: int, n: int)
    requires
        k >= 1,
        n >= 0,
        n * k >= s.len(),
    ensures
        pages_concat(s, k, n) == s,
{
    lemma_pages_cover(s, k, n);
    assert(s.subrange(0, s.len() as int) =~= s);
}

/// The first page over `N` matching records: asking for `k < N` fills the
/// page and leaves more behind; asking for `k >= N` returns everything.
pub proof fn lemma_first_page_shape(s: Seq<WishlistView>, k: u32)
    ensures
        window_low(0, s.len() as int) == 0,
        (k as int) < s.len() ==> window_high(0, Some(k), s.len() as int) == k as int,
        (k as int) >= s.len() ==> window_high(0, Some(k), s.len() as int) == s.len() as int,
        s.subrange(window_low(0, s.len() as int), window_high(0, Some(k), s.len() as int)).len()
            == (if (k as int) < s.len() {
            k as int
        } else {
            s.len() as int
        }),
{
}

/// What `paginate` hands out for `skip` and `first = Some(k)` is exactly the
/// `page_window` of the sorted whole at that offset.
pub proof fn lemma_window_shape(s: Seq<WishlistView>, skip: u64, k: u32)
    ensures
        s.subrange(window_low(skip, s.len() as int), window_high(skip, Some(k), s.len() as int))
            == page_window(s, skip as int, k as int),
{
}

} // verus!
