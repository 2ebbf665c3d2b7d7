//! Order of the 3D draw list: opaque entities first, then transparent ones,
//! each group sorted by mesh, material and lightmaps so that consecutive
//! entities share buffers and bind groups; ties keep gathering order.
use vstd::prelude::*;

verus! {

/// What the draw order of one entity depends on.
#[derive(Debug, Clone, Copy, PartialEq, Eq, Structural)]
pub struct DrawKey {
    pub transparent: bool,
    pub mesh: u32,
    pub material: u32,
    pub lightmap: u32,
    pub dir_lightmap: u32,
}

/// The sort key of entry `i`.
pub open spec fn draw_sort_key(keys: Seq<DrawKey>, i: int) -> (u8, u32, u32, u32, u32, u32) {
    let k = keys[i];
    (if k.transparent { 1u8 } else { 0u8 }, k.mesh, k.material, k.lightmap, k.dir_lightmap, i as u32)
}

/// Lexicographic order on draw sort keys (the std tuple order).
pub open spec fn draw_key_le(a: (u8, u32, u32, u32, u32, u32), b: (u8, u32, u32, u32, u32, u32)) -> bool {
    a.0 < b.0 || (a.0 == b.0 && (a.1 < b.1 || (a.1 == b.1 && (a.2 < b.2 || (a.2 == b.2 && (a.3 < b.3 || (a.3
        == b.3 && (a.4 < b.4 || (a.4 == b.4 && a.5 <= b.5)))))))))
}

/// `slice::sort_unstable` on draw sort keys: the same keys, in the tuples'
/// (lexicographic) order.
#[verifier::external_body]
fn sort_draw_keys(v: &mut Vec<(u8, u32, u32, u32, u32, u32)>)
    ensures
        final(v)@.to_multiset() == old(v)@.to_multiset(),
        forall|i: int, j: int| 0 <= i < j < final(v)@.len() ==> draw_key_le(final(v)@[i], final(v)@[j]),
{
    v.sort_unstable();
}

/// `order` visits each entry once, by increasing sort key.
pub open spec fn is_draw_list_order(keys: Seq<DrawKey>, order: Seq<u32>) -> bool {
    &&& order.len() == keys.len()
    &&& forall|k: int| 0 <= k < order.len() ==> #[trigger] order[k] < keys.len()
    &&& order.no_duplicates()
    &&& forall|k: int, l: int|
        0 <= k < l < order.len() ==> draw_key_le(draw_sort_key(keys, order[k] as int), draw_sort_key(keys, order[l] as int))
}

proof fn lemma_sorted_draw_keys(keys: Seq<DrawKey>, keys0: Seq<(u8, u32, u32, u32, u32, u32)>, sorted: Seq<(u8, u32, u32, u32, u32, u32)>)
    requires
        keys.len() <= u32::MAX,
        keys0.len() == keys.len(),
        forall|i: int| 0 <= i < keys0.len() ==> #[trigger] keys0[i] == draw_sort_key(keys, i),
        sorted.to_multiset() == keys0.to_multiset(),
        forall|i: int, j: int| 0 <= i < j < sorted.len() ==> draw_key_le(sorted[i], sorted[j]),
    ensures
        sorted.len() == keys.len(),
        forall|k: int| 0 <= k < sorted.len() ==> (#[trigger] sorted[k]).5 < keys.len() && sorted[k] == draw_sort_key(keys, sorted[k].5 as int),
        is_draw_list_order(keys, sorted.map_values(|t: (u8, u32, u32, u32, u32, u32)| t.5)),
{
    broadcast use vstd::seq_lib::group_to_multiset_ensures;
    assert(keys0.no_duplicates()) by {
        assert forall|i: int, j: int| 0 <= i < keys0.len() && 0 <= j < keys0.len() && i != j implies keys0[i] != keys0[j] by {
            assert(keys0[i].5 == i as u32);
            assert(keys0[j].5 == j as u32);
        }
    }
    keys0.lemma_multiset_has_no_duplicates();
    assert(sorted.len() == keys0.len()) by {
        sorted.to_multiset_ensures();
        keys0.to_multiset_ensures();
    }
    sorted.lemma_multiset_has_no_duplicates_conv();
    assert forall|k: int| 0 <= k < sorted.len() implies (#[trigger] sorted[k]).5 < keys.len() && sorted[k] == draw_sort_key(keys, sorted[k].5 as int) by {
        assert(sorted.contains(sorted[k]));
        assert(sorted.to_multiset().count(sorted[k]) > 0);
        assert(keys0.contains(sorted[k]));
        let i = choose|i: int| 0 <= i < keys0.len() && keys0[i] == sorted[k];
        assert(keys0[i] == draw_sort_key(keys, i));
    }
    let order = sorted.map_values(|t: (u8, u32, u32, u32, u32, u32)| t.5);
    assert forall|k: int, l: int| 0 <= k < order.len() && 0 <= l < order.len() && k != l implies order[k] != order[l] by {
        assert(sorted[k] == draw_sort_key(keys, sorted[k].5 as int));
        assert(sorted[l] == draw_sort_key(keys, sorted[l].5 as int));
    }
    assert forall|k: int, l: int| 0 <= k < l < order.len() implies draw_key_le(draw_sort_key(keys, order[k] as int), draw_sort_key(keys, order[l] as int)) by {
        assert(sorted[k] == draw_sort_key(keys, sorted[k].5 as int));
        assert(sorted[l] == draw_sort_key(keys, sorted[l].5 as int));
    }
}

/// The drawing order of the gathered entities.
pub fn draw_order(keys: &Vec<DrawKey>) -> (order: Vec<u32>)
    requires
        keys@.len() <= u32::MAX,
    ensures
        is_draw_list_order(keys@, order@),
{
    let n = keys.len();
    let mut sk: Vec<(u8, u32, u32, u32, u32, u32)> = Vec::new();
    let mut i: usize = 0;
    while i < n
        invariant
            n == keys@.len(),
            n <= u32::MAX,
            0 <= i <= n,
            sk@.len() == i,
            forall|j: int| 0 <= j < i ==> #[trigger] sk@[j] == draw_sort_key(keys@, j),
        decreases n - i,
    {
        let k = keys[i];
        let t: u8 = if k.transparent { 1 } else { 0 };
        sk.push((t, k.mesh, k.material, k.lightmap, k.dir_lightmap, i as u32));
        i = i + 1;
    }
    let ghost sk0 = sk@;
    sort_draw_keys(&mut sk);
    proof {
        lemma_sorted_draw_keys(keys@, sk0, sk@);
    }
    let mut order: Vec<u32> = Vec::new();
    let mut k: usize = 0;
    while k < n
        invariant
            n == keys@.len(),
            sk@.len() == n,
            0 <= k <= n,
            order@.len() == k,
            forall|j: int| 0 <= j < k ==> #[trigger] order@[j] == sk@[j].5,
        decreases n - k,
    {
        order.push(sk[k].5);
        k = k + 1;
    }
    proof {
        assert(order@ =~= sk@.map_values(|t: (u8, u32, u32, u32, u32, u32)| t.5));
    }
    order
}

/// In a drawing order every opaque entity comes before every transparent one.
pub proof fn lemma_opaque_before_transparent(keys: Seq<DrawKey>, order: Seq<u32>, k: int, l: int)
    requires
        is_draw_list_order(keys, order),
        0 <= k < order.len(),
        0 <= l < order.len(),
        !keys[order[k] as int].transparent,
        keys[order[l] as int].transparent,
    ensures
        k < l,
{
    if l < k {
        assert(draw_key_le(draw_sort_key(keys, order[l] as int), draw_sort_key(keys, order[k] as int)));
    }
}

} // verus!
