//! The wishlist aggregate: the locally-owned entity that references foreign
//! entities by id.

use vstd::prelude::*;
use vstd::multiset::Multiset;
use vstd::seq_lib::lemma_multiset_commutative;
use crate::foreign_types::{ProductVariant, User};
use crate::ids::Uuid;
use crate::order_datatypes::{common_direction_of, CommonOrderInput, OrderDirection};
use crate::product_variant_connection::ProductVariantConnection;

verus! {

/// The wishlist of a user.
#[derive(Debug)]
pub struct Wishlist {
    /// Wishlist UUID.
    pub _id: Uuid,
    /// User owning the wishlist.
    pub user: User,
    /// Name of the wishlist.
    pub name: String,
    /// Milliseconds timestamp when the wishlist was created.
    pub created_at: u64,
    /// Milliseconds timestamp when the wishlist was last updated.
    pub last_updated_at: u64,
    /// Product variants referenced by the wishlist, one entry per id.
    pub internal_product_variants: Vec<ProductVariant>,
}

/// The mathematical value of a wishlist.
pub struct WishlistView {
    /// Wishlist UUID.
    pub _id: Uuid,
    /// UUID of the owning user.
    pub user_id: Uuid,
    /// Name characters.
    pub name: Seq<char>,
    /// Creation timestamp.
    pub created_at: u64,
    /// Last-update timestamp.
    pub last_updated_at: u64,
    /// Referenced product-variant ids, in insertion order.
    pub product_variant_ids: Seq<Uuid>,
}

/// The ids of a sequence of product variants, in order.
pub open spec fn pv_ids_of(s: Seq<ProductVariant>) -> Seq<Uuid> {
    s.map_values(|pv: ProductVariant| pv._id)
}

impl View for Wishlist {
    type V = WishlistView;

    open spec fn view(&self) -> WishlistView {
        WishlistView {
            _id: self._id,
            user_id: self.user._id,
            name: self.name@,
            created_at: self.created_at,
            last_updated_at: self.last_updated_at,
            product_variant_ids: pv_ids_of(self.internal_product_variants@),
        }
    }
}

/// The views of a sequence of wishlists.
pub open spec fn views_of(s: Seq<Wishlist>) -> Seq<WishlistView> {
    s.map_values(|w: Wishlist| w@)
}

/// Appending a wishlist appends its view.
pub proof fn lemma_views_of_push(s: Seq<Wishlist>, w: Wishlist)
    ensures
        views_of(s.push(w)) == views_of(s).push(w@),
{
    assert forall|j: int| 0 <= j < s.len() + 1 implies views_of(s.push(w))[j] == views_of(s).push(
        w@,
    )[j] by {
        if j < s.len() {
            assert(s.push(w)[j] == s[j]);
            assert(views_of(s)[j] == s[j]@);
        } else {
            assert(s.push(w)[j] == w);
        }
    }
    assert(views_of(s.push(w)) =~= views_of(s).push(w@));
}

/// Replacing a wishlist replaces its view.
pub proof fn lemma_views_of_update(s: Seq<Wishlist>, i: int, w: Wishlist)
    requires
        0 <= i < s.len(),
    ensures
        views_of(s.update(i, w)) == views_of(s).update(i, w@),
{
    assert forall|j: int| 0 <= j < s.len() implies views_of(s.update(i, w))[j] == views_of(
        s,
    ).update(i, w@)[j] by {
        if j != i {
            assert(s.update(i, w)[j] == s[j]);
            assert(views_of(s)[j] == s[j]@);
        } else {
            assert(s.update(i, w)[j] == w);
        }
    }
    assert(views_of(s.update(i, w)) =~= views_of(s).update(i, w@));
}

/// Removing a wishlist removes its view.
pub proof fn lemma_views_of_remove(s: Seq<Wishlist>, i: int)
    requires
        0 <= i < s.len(),
    ensures
        views_of(s.remove(i)) == views_of(s).remove(i),
{
    assert forall|j: int| 0 <= j < s.len() - 1 implies views_of(s.remove(i))[j] == views_of(
        s,
    ).remove(i)[j] by {
        if j < i {
            assert(s.remove(i)[j] == s[j]);
            assert(views_of(s)[j] == s[j]@);
        } else {
            assert(s.remove(i)[j] == s[j + 1]);
            assert(views_of(s)[j + 1] == s[j + 1]@);
        }
    }
    assert(views_of(s.remove(i)) =~= views_of(s).remove(i));
}

impl WishlistView {
    /// Every invariant of a stored wishlist: the reference set holds no id
    /// twice, and the last update never precedes creation.
    pub open spec fn wf(self) -> bool {
        self.product_variant_ids.no_duplicates() && self.last_updated_at >= self.created_at
    }
}

impl Wishlist {
    /// An owned copy carrying the same value.
    pub fn duplicate(&self) -> (r: Wishlist)
        ensures
            r@ == self@,
    {
        let r = Wishlist {
            _id: self._id,
            user: self.user,
            name: self.name.clone(),
            created_at: self.created_at,
            last_updated_at: self.last_updated_at,
            internal_product_variants: copy_product_variants(&self.internal_product_variants),
        };
        r
    }

    /// The referenced product variants: sorted by id, windowed by
    /// `skip`/`first`, with the total over the whole reference set.
    pub fn product_variants(
        &self,
        first: Option<usize>,
        skip: Option<usize>,
        order_by: Option<CommonOrderInput>,
    ) -> (r: ProductVariantConnection)
        ensures
            ({
                let sorted = sort_product_variants_spec(
                    self.internal_product_variants@,
                    common_direction_of(order_by),
                );
                let lo = page_low(skip, sorted.len() as int);
                let hi = page_high(skip, first, sorted.len() as int);
                &&& r.nodes@ == sorted.subrange(lo, hi)
                &&& r.total_count == self.internal_product_variants@.len()
                &&& r.has_next_page == (r.total_count > skip_or_zero(skip) + r.nodes@.len())
            }),
    {
        let mut product_variants = copy_product_variants(&self.internal_product_variants);
        sort_product_variants(&mut product_variants, order_by);
        proof {
            lemma_sort_product_variants_props(
                self.internal_product_variants@,
                common_direction_of(order_by),
            );
        }
        let total_count: usize = product_variants.len();
        let definitely_skip = match skip {
            Some(s) => s,
            None => 0,
        };
        let lo = if definitely_skip < total_count {
            definitely_skip
        } else {
            total_count
        };
        let hi = match first {
            Some(f) => {
                if f < total_count - lo {
                    lo + f
                } else {
                    total_count
                }
            },
            None => total_count,
        };
        let mut nodes: Vec<ProductVariant> = Vec::new();
        let mut i: usize = lo;
        while i < hi
            invariant
                lo <= i <= hi <= product_variants@.len(),
                nodes@ == product_variants@.subrange(lo as int, i as int),
            decreases hi - i,
        {
            nodes.push(product_variants[i]);
            proof {
                assert(product_variants@.subrange(lo as int, i + 1) =~= product_variants@.subrange(
                    lo as int,
                    i as int,
                ).push(product_variants@[i as int]));
            }
            i = i + 1;
        }
        let has_next_page = total_count > nodes.len() + definitely_skip;
        ProductVariantConnection { nodes, has_next_page, total_count: total_count as u64 }
    }
}

/// Where a page starts: `skip`, capped at the total.
pub open spec fn page_low(skip: Option<usize>, len: int) -> int {
    let s = skip_or_zero(skip);
    if s < len {
        s
    } else {
        len
    }
}

/// Where a page ends: `first` items past the start, capped at the total.
pub open spec fn page_high(skip: Option<usize>, first: Option<usize>, len: int) -> int {
    let lo = page_low(skip, len);
    match first {
        Some(f) => if lo + f < len {
            lo + f
        } else {
            len
        },
        None => len,
    }
}

/// The skip count a caller asked for, zero by default.
pub open spec fn skip_or_zero(skip: Option<usize>) -> int {
    match skip {
        Some(s) => s as int,
        None => 0,
    }
}

/// Whether `a` is strictly ordered before `b` under `dir`, comparing ids.
pub open spec fn pv_before(a: ProductVariant, b: ProductVariant, dir: OrderDirection) -> bool {
    match dir {
        OrderDirection::Asc => a._id.value < b._id.value,
        OrderDirection::Desc => a._id.value > b._id.value,
    }
}

/// Whether `a` may stand at or before `b` in sorted order.
pub open spec fn pv_le(a: ProductVariant, b: ProductVariant, dir: OrderDirection) -> bool {
    !pv_before(b, a, dir)
}

/// Whether `s` is sorted under `dir`.
pub open spec fn pvs_sorted(s: Seq<ProductVariant>, dir: OrderDirection) -> bool {
    forall|i: int, j: int| 0 <= i < j < s.len() ==> pv_le(#[trigger] s[i], #[trigger] s[j], dir)
}

/// `x` placed into `s` before the first element it is ordered before.
pub open spec fn insert_pv_sorted(
    x: ProductVariant,
    s: Seq<ProductVariant>,
    dir: OrderDirection,
) -> Seq<ProductVariant>
    decreases s.len(),
{
    if s.len() > 0 && pv_before(s.first(), x, dir) {
        seq![s.first()] + insert_pv_sorted(x, s.drop_first(), dir)
    } else {
        seq![x] + s
    }
}

/// Insertion sort of product variants, element by element from the front.
pub open spec fn sort_product_variants_spec(
    s: Seq<ProductVariant>,
    dir: OrderDirection,
) -> Seq<ProductVariant>
    decreases s.len(),
{
    if s.len() == 0 {
        Seq::empty()
    } else {
        insert_pv_sorted(s.last(), sort_product_variants_spec(s.drop_last(), dir), dir)
    }
}

/// Inserting at the first admissible position is what `insert_pv_sorted`
/// writes down.
proof fn lemma_insert_pv_position(
    x: ProductVariant,
    s: Seq<ProductVariant>,
    dir: OrderDirection,
    j: int,
)
    requires
        0 <= j <= s.len(),
        forall|t: int| 0 <= t < j ==> pv_before(#[trigger] s[t], x, dir),
        j < s.len() ==> !pv_before(s[j], x, dir),
    ensures
        insert_pv_sorted(x, s, dir) == s.insert(j, x),
    decreases j,
{
    if j == 0 {
        assert(insert_pv_sorted(x, s, dir) == seq![x] + s);
        assert(s.insert(0, x) =~= seq![x] + s);
    } else {
        assert(pv_before(s[0], x, dir));
        lemma_insert_pv_position(x, s.drop_first(), dir, j - 1);
        assert(insert_pv_sorted(x, s, dir) == seq![s.first()] + s.drop_first().insert(j - 1, x));
        assert(seq![s.first()] + s.drop_first().insert(j - 1, x) =~= s.insert(j, x));
    }
}

/// Sorted insertion keeps order and adds exactly the new element.
proof fn lemma_insert_pv_sorted_props(x: ProductVariant, s: Seq<ProductVariant>, dir: OrderDirection)
    requires
        pvs_sorted(s, dir),
    ensures
        pvs_sorted(insert_pv_sorted(x, s, dir), dir),
        insert_pv_sorted(x, s, dir).to_multiset() == s.to_multiset().insert(x),
        insert_pv_sorted(x, s, dir).len() == s.len() + 1,
    decreases s.len(),
{
    broadcast use vstd::multiset::group_multiset_axioms;

    let out = insert_pv_sorted(x, s, dir);
    if s.len() > 0 && pv_before(s.first(), x, dir) {
        assert(pvs_sorted(s.drop_first(), dir)) by {
            assert(forall|i: int| 0 <= i < s.len() - 1 ==> s.drop_first()[i] == s[i + 1]);
        }
        lemma_insert_pv_sorted_props(x, s.drop_first(), dir);
        let tail = insert_pv_sorted(x, s.drop_first(), dir);
        assert(out == seq![s.first()] + tail);
        // Order: the head is admissible before every element of the tail.
        assert forall|i: int, j: int| 0 <= i < j < out.len() implies pv_le(
            out[i],
            out[j],
            dir,
        ) by {
            if i == 0 {
                assert(out[j] == tail[j - 1]);
                assert(tail.to_multiset().count(tail[j - 1]) > 0) by {
                    tail.to_multiset_ensures();
                }
                assert(s.drop_first().to_multiset().insert(x).count(tail[j - 1]) > 0);
                if tail[j - 1] == x {
                    assert(pv_le(s[0], x, dir));
                } else {
                    assert(s.drop_first().to_multiset().count(tail[j - 1]) > 0);
                    assert(s.drop_first().contains(tail[j - 1])) by {
                        s.drop_first().to_multiset_ensures();
                    }
                    let t = choose|t: int|
                        0 <= t < s.drop_first().len() && s.drop_first()[t] == tail[j - 1];
                    assert(s[t + 1] == tail[j - 1]);
                    assert(pv_le(s[0], s[t + 1], dir));
                }
            } else {
                assert(out[i] == tail[i - 1] && out[j] == tail[j - 1]);
            }
        }
        // Contents: one more copy of `x`, everything else as it was.
        lemma_multiset_commutative(seq![s.first()], tail);
        assert(seq![s.first()].to_multiset() == Multiset::<ProductVariant>::empty().insert(
            s.first(),
        )) by {
            assert(seq![s.first()] =~= Seq::<ProductVariant>::empty().push(s.first()));
            Seq::<ProductVariant>::empty().to_multiset_ensures();
        }
        assert(seq![s.first()] + s.drop_first() =~= s);
        lemma_multiset_commutative(seq![s.first()], s.drop_first());
        assert(out.to_multiset() =~= s.to_multiset().insert(x));
    } else {
        assert(out == seq![x] + s);
        assert forall|i: int, j: int| 0 <= i < j < out.len() implies pv_le(
            out[i],
            out[j],
            dir,
        ) by {
            if i == 0 {
                if s.len() > 0 {
                    assert(!pv_before(s[0], x, dir));
                    assert(out[j] == s[j - 1]);
                    if j > 1 {
                        assert(pv_le(s[0], s[j - 1], dir));
                    }
                }
            } else {
                assert(out[i] == s[i - 1] && out[j] == s[j - 1]);
            }
        }
        lemma_multiset_commutative(seq![x], s);
        assert(seq![x].to_multiset() == Multiset::<ProductVariant>::empty().insert(x)) by {
            assert(seq![x] =~= Seq::<ProductVariant>::empty().push(x));
            Seq::<ProductVariant>::empty().to_multiset_ensures();
        }
        assert(out.to_multiset() =~= s.to_multiset().insert(x));
    }
}

/// The sort writes a sorted permutation: same contents, ordered, same length.
pub proof fn lemma_sort_product_variants_props(s: Seq<ProductVariant>, dir: OrderDirection)
    ensures
        pvs_sorted(sort_product_variants_spec(s, dir), dir),
        sort_product_variants_spec(s, dir).to_multiset() == s.to_multiset(),
        sort_product_variants_spec(s, dir).len() == s.len(),
    decreases s.len(),
{
    broadcast use vstd::multiset::group_multiset_axioms;

    if s.len() == 0 {
        assert(s =~= Seq::<ProductVariant>::empty());
    } else {
        lemma_sort_product_variants_props(s.drop_last(), dir);
        lemma_insert_pv_sorted_props(
            s.last(),
            sort_product_variants_spec(s.drop_last(), dir),
            dir,
        );
        s.drop_last().to_multiset_ensures();
        assert(s.drop_last().push(s.last()).to_multiset() =~= s.drop_last().to_multiset().insert(
            s.last(),
        ));
        assert(s.drop_last().push(s.last()) =~= s);
        assert(s.to_multiset() == s.drop_last().to_multiset().insert(s.last()));
        assert(sort_product_variants_spec(s, dir).to_multiset() == insert_pv_sorted(
            s.last(),
            sort_product_variants_spec(s.drop_last(), dir),
            dir,
        ).to_multiset());
        assert(sort_product_variants_spec(s, dir).to_multiset() == s.to_multiset());
    }
}

/// Sorts product variants in place, by id, in the direction `order_by` asks.
///
/// * `product_variants` - Vector of product variants to sort.
/// * `order_by` - Specifies order of sorted result.
pub fn sort_product_variants(
    product_variants: &mut Vec<ProductVariant>,
    order_by: Option<CommonOrderInput>,
)
    ensures
        final(product_variants)@ == sort_product_variants_spec(
            old(product_variants)@,
            common_direction_of(order_by),
        ),
{
    let dir = match order_by {
        None => OrderDirection::Asc,
        Some(o) => match o.direction {
            None => OrderDirection::Asc,
            Some(d) => d,
        },
    };
    let ghost input = product_variants@;
    let mut result: Vec<ProductVariant> = Vec::new();
    let mut k: usize = 0;
    proof {
        assert(input.subrange(0, 0) =~= Seq::<ProductVariant>::empty());
    }
    while k < product_variants.len()
        invariant
            k <= input.len(),
            product_variants@ == input,
            result@ == sort_product_variants_spec(input.subrange(0, k as int), dir),
            dir == common_direction_of(order_by),
        decreases input.len() - k,
    {
        let x = product_variants[k];
        let mut j: usize = 0;
        while j < result.len() && pv_before_exec(&result[j], &x, dir)
            invariant
                j <= result@.len(),
                forall|t: int| 0 <= t < j ==> pv_before(#[trigger] result@[t], x, dir),
            decreases result@.len() - j,
        {
            j = j + 1;
        }
        proof {
            lemma_insert_pv_position(x, result@, dir, j as int);
            assert(input.subrange(0, k + 1).drop_last() =~= input.subrange(0, k as int));
            assert(input.subrange(0, k + 1).last() == input[k as int]);
        }
        result.insert(j, x);
        k = k + 1;
    }
    proof {
        assert(input.subrange(0, input.len() as int) =~= input);
    }
    *product_variants = result;
}

/// Whether `a` sorts strictly before `b` under `dir`.
fn pv_before_exec(a: &ProductVariant, b: &ProductVariant, dir: OrderDirection) -> (r: bool)
    ensures
        r == pv_before(*a, *b, dir),
{
    match dir {
        OrderDirection::Asc => a._id.value < b._id.value,
        OrderDirection::Desc => a._id.value > b._id.value,
    }
}

/// An element-wise copy.
pub fn copy_product_variants(v: &Vec<ProductVariant>) -> (r: Vec<ProductVariant>)
    ensures
        r@ == v@,
{
    let mut r: Vec<ProductVariant> = Vec::new();
    let mut i: usize = 0;
    while i < v.len()
        invariant
            i <= v@.len(),
            r@ == v@.subrange(0, i as int),
        decreases v@.len() - i,
    {
        r.push(v[i]);
        proof {
            assert(v@.subrange(0, i + 1) =~= v@.subrange(0, i as int).push(v@[i as int]));
        }
        i = i + 1;
    }
    proof {
        assert(v@.subrange(0, v@.len() as int) =~= v@);
    }
    r
}

impl From<Wishlist> for Uuid {
    /// A wishlist converts to its id.
    fn from(value: Wishlist) -> (r: Uuid) {
        value._id
    }
}

impl vstd::std_specs::convert::FromSpecImpl<Wishlist> for Uuid {
    open spec fn obeys_from_spec() -> bool {
        true
    }

    open spec fn from_spec(value: Wishlist) -> Uuid {
        value._id
    }
}

} // verus!
