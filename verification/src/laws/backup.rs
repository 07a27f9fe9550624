//! Which backups are kept.
use vstd::prelude::*;
use vstd::utf8::encode_utf8;
use crate::backup::{
    bytes_less, is_backup, is_listing, is_older, lemma_bytes_irreflexive, lemma_bytes_transitive,
    lemma_older_transitive, surplus, KEPT_BACKUPS,
};

verus! {

/// No file is older than itself.
proof fn lemma_older_irreflexive(names: Seq<Seq<u8>>, i: int)
    ensures
        !is_older(names, i, i),
{
    lemma_bytes_irreflexive(names[i]);
}

/// A listing holds no place twice.
proof fn lemma_listing_distinct(names: Seq<Seq<u8>>, listing: Seq<int>, k: int, l: int)
    requires
        is_listing(names, listing),
        0 <= k < listing.len(),
        0 <= l < listing.len(),
        listing[k] == listing[l],
    ensures
        k == l,
{
    lemma_older_irreflexive(names, listing[k]);
    if k < l {
        assert(is_older(names, listing[k], listing[l]));
    } else if l < k {
        assert(is_older(names, listing[l], listing[k]));
    }
}

/// The places of the backups can be listed from the oldest to the newest in one
/// way only, so that it is settled which of them are to be removed.
pub proof fn law_listing_is_unique(names: Seq<Seq<u8>>, a: Seq<int>, b: Seq<int>)
    requires
        is_listing(names, a),
        is_listing(names, b),
    ensures
        a == b,
{
    lemma_listing_prefix(names, a, b, a.len() as int);
    lemma_listing_prefix(names, b, a, b.len() as int);
    assert(a =~= b);
}

/// One listing begins with any beginning of another.
proof fn lemma_listing_prefix(names: Seq<Seq<u8>>, a: Seq<int>, b: Seq<int>, n: int)
    requires
        is_listing(names, a),
        is_listing(names, b),
        0 <= n <= a.len(),
    ensures
        n <= b.len(),
        forall|k: int| 0 <= k < n ==> a[k] == b[k],
    decreases n,
{
    if n > 0 {
        let m = n - 1;
        lemma_listing_prefix(names, a, b, m);
        assert(is_backup(names[a[m]]));
        assert(b.contains(a[m]));
        let l = choose|l: int| 0 <= l < b.len() && b[l] == a[m];
        if l < m {
            assert(a[l] == b[l]);
            lemma_listing_distinct(names, a, l, m);
        }
        if l > m {
            assert(is_backup(names[b[m]]));
            assert(a.contains(b[m]));
            let k = choose|k: int| 0 <= k < a.len() && a[k] == b[m];
            assert(is_older(names, b[m], b[l]));
            if k < m {
                assert(a[k] == b[k]);
                lemma_listing_distinct(names, b, k, m);
            } else if k == m {
                lemma_older_irreflexive(names, a[m]);
            } else {
                assert(is_older(names, a[m], a[k]));
                lemma_older_transitive(names, b[m], b[l], a[k]);
                lemma_older_irreflexive(names, b[m]);
            }
        }
    }
}

/// No more backups are kept than there are to be, none of them is older than one
/// that is removed, and none is removed while there is room for it.
pub proof fn law_the_newest_backups_are_kept(names: Seq<Seq<u8>>, listing: Seq<int>)
    requires
        is_listing(names, listing),
    ensures
        ({
            let removed = listing.take(surplus(listing.len()));
            let kept = listing.skip(surplus(listing.len()));
            &&& kept.len() <= KEPT_BACKUPS
            &&& removed.len() > 0 ==> kept.len() == KEPT_BACKUPS
            &&& forall|k: int, l: int|
                0 <= k < removed.len() && 0 <= l < kept.len() ==> is_older(
                    names,
                    #[trigger] removed[k],
                    #[trigger] kept[l],
                )
        }),
{
    let n = surplus(listing.len());
    let removed = listing.take(n);
    let kept = listing.skip(n);
    assert forall|k: int, l: int| 0 <= k < removed.len() && 0 <= l < kept.len() implies is_older(
        names,
        #[trigger] removed[k],
        #[trigger] kept[l],
    ) by {
        assert(removed[k] == listing[k]);
        assert(kept[l] == listing[n + l]);
    }
}

/// One byte string comes before another if it is smaller in the first place in
/// which they differ, or if it is a beginning of the other.
pub proof fn law_order_is_settled_by_the_first_difference(a: Seq<u8>, b: Seq<u8>, k: int)
    requires
        0 <= k <= a.len(),
        k <= b.len(),
        a.take(k) == b.take(k),
    ensures
        k < a.len() && k < b.len() && a[k] != b[k] ==> bytes_less(a, b) == (a[k] < b[k]),
        k == a.len() && k < b.len() ==> bytes_less(a, b),
        k == b.len() ==> !bytes_less(a, b),
    decreases k,
{
    if k > 0 {
        assert(a[0] == a.take(k)[0]);
        assert(b[0] == b.take(k)[0]);
        assert(a.drop_first().take(k - 1) =~= a.take(k).drop_first());
        assert(b.drop_first().take(k - 1) =~= b.take(k).drop_first());
        law_order_is_settled_by_the_first_difference(a.drop_first(), b.drop_first(), k - 1);
    }
}

/// The names of backups are those that begin with `config-` and end with `.toml`,
/// whatever stands between.
pub proof fn law_names_of_backups(stamp: Seq<u8>, name: Seq<u8>)
    ensures
        is_backup(encode_utf8("config-"@) + stamp + encode_utf8(".toml"@)),
        is_backup(name) ==> {
            &&& name.len() >= encode_utf8("config-"@).len()
            &&& name.len() >= encode_utf8(".toml"@).len()
            &&& name.take(encode_utf8("config-"@).len() as int) == encode_utf8("config-"@)
            &&& name.skip(name.len() - encode_utf8(".toml"@).len()) == encode_utf8(".toml"@)
        },
{
    let head = encode_utf8("config-"@);
    let tail = encode_utf8(".toml"@);
    let whole = head + stamp + tail;
    assert(whole.take(head.len() as int) =~= head);
    assert(whole.skip(whole.len() - tail.len()) =~= tail);
    if is_backup(name) {
        assert(name.take(head.len() as int) =~= head);
        assert(name.skip(name.len() - tail.len()) =~= tail);
    }
}

/// Every backup is kept or removed, no other file is touched, and no backup that
/// is removed has a name behind that of one that is kept.
pub proof fn law_every_backup_is_kept_or_removed(names: Seq<Seq<u8>>, listing: Seq<int>)
    requires
        is_listing(names, listing),
    ensures
        ({
            let removed = listing.take(surplus(listing.len()));
            let kept = listing.skip(surplus(listing.len()));
            &&& forall|i: int|
                0 <= i < names.len() && is_backup(#[trigger] names[i]) ==> removed.contains(i)
                    || kept.contains(i)
            &&& forall|k: int|
                0 <= k < removed.len() ==> 0 <= #[trigger] removed[k] < names.len() && is_backup(
                    names[removed[k]],
                ) && !kept.contains(removed[k])
            &&& forall|k: int, l: int|
                0 <= k < removed.len() && 0 <= l < kept.len() ==> !bytes_less(
                    names[#[trigger] kept[l]],
                    names[#[trigger] removed[k]],
                )
        }),
{
    let n = surplus(listing.len());
    let removed = listing.take(n);
    let kept = listing.skip(n);
    assert forall|i: int| 0 <= i < names.len() && is_backup(#[trigger] names[i]) implies removed.contains(
        i,
    ) || kept.contains(i) by {
        assert(listing.contains(i));
        let k = choose|k: int| 0 <= k < listing.len() && listing[k] == i;
        if k < n {
            assert(removed[k] == i);
        } else {
            assert(kept[k - n] == i);
        }
    }
    assert forall|k: int| 0 <= k < removed.len() implies 0 <= #[trigger] removed[k] < names.len()
        && is_backup(names[removed[k]]) && !kept.contains(removed[k]) by {
        assert(removed[k] == listing[k]);
        if kept.contains(removed[k]) {
            let l = choose|l: int| 0 <= l < kept.len() && kept[l] == removed[k];
            lemma_listing_distinct(names, listing, k, n + l);
        }
    }
    assert forall|k: int, l: int| 0 <= k < removed.len() && 0 <= l < kept.len() implies !bytes_less(
        names[#[trigger] kept[l]],
        names[#[trigger] removed[k]],
    ) by {
        assert(removed[k] == listing[k]);
        assert(kept[l] == listing[n + l]);
        assert(is_older(names, listing[k], listing[n + l]));
        lemma_bytes_irreflexive(names[listing[k]]);
        if bytes_less(names[kept[l]], names[removed[k]]) {
            if bytes_less(names[removed[k]], names[kept[l]]) {
                lemma_bytes_transitive(names[kept[l]], names[removed[k]], names[kept[l]]);
                lemma_bytes_irreflexive(names[kept[l]]);
            }
        }
    }
}

} // verus!
