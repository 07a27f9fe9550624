//! Keeping what a configuration file held before it is written anew.
use vstd::prelude::*;
use vstd::string::*;
use vstd::utf8::encode_utf8;
use crate::error::{AppError, AppErrorView};
use crate::selection::validate_config_toml;
use crate::toml::toml_parse;

verus! {

/// How many backups are kept.
pub const KEPT_BACKUPS: usize = 10;

/// What is to be done to write a configuration.
#[derive(Clone, Copy, Debug, PartialEq, Eq, Structural)]
pub enum WritePlan {
    /// Write it.
    Write,
    /// Keep what is there as a backup, then write it.
    BackUpAndWrite,
}

/// Refuses a text that is no TOML; else tells how it is to be written, where
/// `current` is what the file holds, if it can be read. A backup is made of
/// contents that are about to change.
pub fn write_grok_config_text(text: &str, current: Option<&[u8]>) -> (r: Result<WritePlan, AppError>)
    ensures
        match toml_parse(text@) {
            Ok(_) => r is Ok && r->Ok_0 == match current {
                Some(bytes) => if bytes@ == encode_utf8(text@) {
                    WritePlan::Write
                } else {
                    WritePlan::BackUpAndWrite
                },
                None => WritePlan::Write,
            },
            Err(detail) => r is Err && r->Err_0@ == (AppErrorView::ConfigTomlInvalid { detail }),
        },
{
    match validate_config_toml(text) {
        Ok(_) => {},
        Err(error) => {
            return Err(error);
        },
    }
    match current {
        Some(bytes) => if same_bytes(bytes, text.as_bytes()) {
            Ok(WritePlan::Write)
        } else {
            Ok(WritePlan::BackUpAndWrite)
        },
        None => Ok(WritePlan::Write),
    }
}

/// The text of the configuration in use, where `contents` is what its file
/// holds; refuses where there is no file.
pub fn read_grok_config_text(contents: Option<String>) -> (r: Result<String, AppError>)
    ensures
        match contents {
            Some(text) => r is Ok && r->Ok_0 == text,
            None => r is Err && r->Err_0@ == AppErrorView::LiveMissing,
        },
{
    match contents {
        Some(text) => Ok(text),
        None => Err(AppError::LiveMissing),
    }
}

/// Whether both hold the same bytes.
fn same_bytes(a: &[u8], b: &[u8]) -> (r: bool)
    ensures
        r == (a@ == b@),
{
    if a.len() != b.len() {
        return false;
    }
    let mut i: usize = 0;
    while i < a.len()
        invariant
            i <= a.len(),
            a.len() == b.len(),
            forall|j: int| 0 <= j < i ==> a@[j] == b@[j],
        decreases a.len() - i,
    {
        if a[i] != b[i] {
            return false;
        }
        i += 1;
    }
    assert(a@ =~= b@);
    true
}

/// The name of the backup that is made at the given time.
pub fn backup_file_name(stamp: &str) -> (r: String)
    ensures
        r@ == "config-"@ + stamp@ + ".toml"@,
{
    let mut name = "config-".to_owned();
    name.append(stamp);
    name.append(".toml");
    name
}

// ------------------------------------------------------------------ pruning

/// The name, in UTF-8, is that of a backup.
pub open spec fn is_backup(name: Seq<u8>) -> bool {
    &&& encode_utf8("config-"@).is_prefix_of(name)
    &&& encode_utf8(".toml"@).is_suffix_of(name)
}

/// The order of byte strings, which is that of the times in the names of backups.
pub open spec fn bytes_less(a: Seq<u8>, b: Seq<u8>) -> bool
    decreases a.len(),
{
    if b.len() == 0 {
        false
    } else if a.len() == 0 {
        true
    } else if a[0] != b[0] {
        a[0] < b[0]
    } else {
        bytes_less(a.drop_first(), b.drop_first())
    }
}

/// The file at `i` is older than that at `j`.
pub open spec fn is_older(names: Seq<Seq<u8>>, i: int, j: int) -> bool {
    bytes_less(names[i], names[j]) || (names[i] == names[j] && i < j)
}

/// The places of all backups among the names, the oldest first.
pub open spec fn is_listing(names: Seq<Seq<u8>>, listing: Seq<int>) -> bool {
    &&& forall|k: int| 0 <= k < listing.len() ==> 0 <= #[trigger] listing[k] < names.len() && is_backup(
        names[listing[k]],
    )
    &&& forall|i: int| 0 <= i < names.len() && is_backup(#[trigger] names[i]) ==> listing.contains(i)
    &&& forall|k: int, l: int|
        0 <= k < l < listing.len() ==> is_older(names, #[trigger] listing[k], #[trigger] listing[l])
}

/// How many of `n` backups are too many.
pub open spec fn surplus(n: nat) -> int {
    if n > KEPT_BACKUPS {
        n - KEPT_BACKUPS
    } else {
        0
    }
}

/// The bytes of each name.
pub open spec fn byte_names(names: Seq<Vec<u8>>) -> Seq<Seq<u8>> {
    names.map_values(|name: Vec<u8>| name@)
}

/// The places as integers.
pub open spec fn places(listing: Seq<usize>) -> Seq<int> {
    listing.map_values(|i: usize| i as int)
}

/// No byte string comes before itself.
pub proof fn lemma_bytes_irreflexive(a: Seq<u8>)
    ensures
        !bytes_less(a, a),
    decreases a.len(),
{
    if a.len() > 0 {
        lemma_bytes_irreflexive(a.drop_first());
    }
}

/// Of two different byte strings one comes before the other.
pub proof fn lemma_bytes_total(a: Seq<u8>, b: Seq<u8>)
    ensures
        bytes_less(a, b) || bytes_less(b, a) || a == b,
    decreases a.len(),
{
    if a.len() == 0 && b.len() == 0 {
        assert(a =~= b);
    } else if a.len() > 0 && b.len() > 0 && a[0] == b[0] {
        lemma_bytes_total(a.drop_first(), b.drop_first());
        if a.drop_first() == b.drop_first() {
            assert(a =~= seq![a[0]] + a.drop_first());
            assert(b =~= seq![b[0]] + b.drop_first());
        }
    }
}

/// The order of byte strings is transitive.
pub proof fn lemma_bytes_transitive(a: Seq<u8>, b: Seq<u8>, c: Seq<u8>)
    requires
        bytes_less(a, b),
        bytes_less(b, c),
    ensures
        bytes_less(a, c),
    decreases a.len(),
{
    if a.len() > 0 && a[0] == b[0] && b[0] == c[0] {
        lemma_bytes_transitive(a.drop_first(), b.drop_first(), c.drop_first());
    }
}

/// The order of files is transitive.
pub proof fn lemma_older_transitive(names: Seq<Seq<u8>>, i: int, j: int, k: int)
    requires
        is_older(names, i, j),
        is_older(names, j, k),
    ensures
        is_older(names, i, k),
{
    if bytes_less(names[i], names[j]) && bytes_less(names[j], names[k]) {
        lemma_bytes_transitive(names[i], names[j], names[k]);
    }
}

/// Whether `a` comes before `b`.
fn comes_before(a: &[u8], b: &[u8]) -> (r: bool)
    ensures
        r == bytes_less(a@, b@),
{
    let mut i: usize = 0;
    proof {
        assert(a@.skip(0) =~= a@);
        assert(b@.skip(0) =~= b@);
    }
    while i < a.len() && i < b.len()
        invariant
            i <= a.len(),
            i <= b.len(),
            bytes_less(a@, b@) == bytes_less(a@.skip(i as int), b@.skip(i as int)),
        decreases a.len() - i,
    {
        if a[i] != b[i] {
            return a[i] < b[i];
        }
        proof {
            assert(a@.skip(i as int).drop_first() =~= a@.skip(i + 1));
            assert(b@.skip(i as int).drop_first() =~= b@.skip(i + 1));
        }
        i += 1;
    }
    i < b.len()
}

/// Whether `s` holds the bytes of `part` from `start` on.
fn holds_at(s: &[u8], start: usize, part: &[u8]) -> (r: bool)
    requires
        start + part@.len() <= s@.len(),
    ensures
        r == (s@.subrange(start as int, start + part@.len()) == part@),
{
    let n: usize = s.len();
    let mut i: usize = 0;
    while i < part.len()
        invariant
            i <= part.len(),
            n == s@.len(),
            start + part@.len() <= n,
            forall|j: int| 0 <= j < i ==> s@[start + j] == part@[j],
        decreases part.len() - i,
    {
        if s[start + i] != part[i] {
            proof {
                let range = s@.subrange(start as int, start + part@.len());
                assert(range[i as int] == s@[start + i]);
            }
            return false;
        }
        i += 1;
    }
    assert(s@.subrange(start as int, start + part@.len()) =~= part@);
    true
}

/// Whether the name is that of a backup.
pub fn is_backup_name(name: &[u8]) -> (r: bool)
    ensures
        r == is_backup(name@),
{
    let head = "config-".as_bytes();
    let tail = ".toml".as_bytes();
    if name.len() < head.len() || name.len() < tail.len() {
        return false;
    }
    assert(name@.subrange(0, head@.len() as int) =~= name@.take(head@.len() as int));
    holds_at(name, 0, head) && holds_at(name, name.len() - tail.len(), tail)
}

/// The places of all backups among the names, the oldest first.
fn list_backups(names: &Vec<Vec<u8>>) -> (r: Vec<usize>)
    ensures
        is_listing(byte_names(names@), places(r@)),
{
    let ghost all = byte_names(names@);
    let mut listing: Vec<usize> = Vec::new();
    let mut i: usize = 0;
    while i < names.len()
        invariant
            i <= names.len(),
            all == byte_names(names@),
            is_listing(all.take(i as int), places(listing@)),
        decreases names.len() - i,
    {
        proof {
            assert(all[i as int] == names@[i as int]@);
        }
        if is_backup_name(names[i].as_slice()) {
            let at = place_of(names, &listing, i);
            let ghost before = listing@;
            listing.insert(at, i);
            proof {
                lemma_listing_insert(all, places(before), i as int, at as int);
                assert(places(listing@) =~= places(before).insert(at as int, i as int));
            }
        } else {
            proof {
                lemma_listing_skip(all, places(listing@), i as int);
            }
        }
        i += 1;
    }
    assert(all.take(i as int) =~= all);
    listing
}

/// Where the file at `i` belongs in the listing of those before it.
fn place_of(names: &Vec<Vec<u8>>, listing: &Vec<usize>, i: usize) -> (r: usize)
    requires
        i < names@.len(),
        is_listing(byte_names(names@).take(i as int), places(listing@)),
    ensures
        r <= listing@.len(),
        forall|k: int| 0 <= k < r ==> is_older(byte_names(names@), #[trigger] places(listing@)[k], i as int),
        r < listing@.len() ==> is_older(byte_names(names@), i as int, places(listing@)[r as int]),
{
    let ghost all = byte_names(names@);
    let ghost at = places(listing@);
    let mut k: usize = 0;
    while k < listing.len()
        invariant
            k <= listing.len(),
            i < names@.len(),
            all == byte_names(names@),
            at == places(listing@),
            is_listing(all.take(i as int), at),
            forall|j: int| 0 <= j < k ==> is_older(all, #[trigger] at[j], i as int),
        decreases listing.len() - k,
    {
        let p = listing[k];
        proof {
            assert(at[k as int] == p as int);
            assert(0 <= at[k as int] < all.take(i as int).len());
            assert(all[p as int] == names@[p as int]@);
            assert(all[i as int] == names@[i as int]@);
            lemma_bytes_total(all[p as int], all[i as int]);
            lemma_bytes_irreflexive(all[i as int]);
        }
        if comes_before(names[i].as_slice(), names[p].as_slice()) {
            return k;
        }
        k += 1;
    }
    k
}

/// A file that is no backup leaves the listing as it is.
proof fn lemma_listing_skip(names: Seq<Seq<u8>>, listing: Seq<int>, i: int)
    requires
        0 <= i < names.len(),
        is_listing(names.take(i), listing),
        !is_backup(names[i]),
    ensures
        is_listing(names.take(i + 1), listing),
{
    let before = names.take(i);
    let after = names.take(i + 1);
    assert forall|k: int| 0 <= k < listing.len() implies 0 <= #[trigger] listing[k] < after.len()
        && is_backup(after[listing[k]]) by {
        assert(before[listing[k]] == after[listing[k]]);
    }
    assert forall|j: int| 0 <= j < after.len() && is_backup(#[trigger] after[j]) implies listing.contains(
        j,
    ) by {
        assert(before[j] == after[j]);
    }
    assert forall|k: int, l: int| 0 <= k < l < listing.len() implies is_older(
        after,
        #[trigger] listing[k],
        #[trigger] listing[l],
    ) by {
        assert(is_older(before, listing[k], listing[l]));
    }
}

/// A backup that is put in its place keeps the listing one.
proof fn lemma_listing_insert(names: Seq<Seq<u8>>, listing: Seq<int>, i: int, at: int)
    requires
        0 <= i < names.len(),
        is_listing(names.take(i), listing),
        is_backup(names[i]),
        0 <= at <= listing.len(),
        forall|k: int| 0 <= k < at ==> is_older(names, #[trigger] listing[k], i),
        at < listing.len() ==> is_older(names, i, listing[at]),
    ensures
        is_listing(names.take(i + 1), listing.insert(at, i)),
{
    let before = names.take(i);
    let after = names.take(i + 1);
    let longer = listing.insert(at, i);
    assert forall|k: int| 0 <= k < longer.len() implies 0 <= #[trigger] longer[k] < after.len()
        && is_backup(after[longer[k]]) by {
        if k < at {
            assert(longer[k] == listing[k]);
            assert(before[listing[k]] == after[listing[k]]);
        } else if k > at {
            assert(longer[k] == listing[k - 1]);
            assert(before[listing[k - 1]] == after[listing[k - 1]]);
        }
    }
    assert forall|j: int| 0 <= j < after.len() && is_backup(#[trigger] after[j]) implies longer.contains(
        j,
    ) by {
        if j == i {
            assert(longer[at] == i);
        } else {
            assert(before[j] == after[j]);
            let k = choose|k: int| 0 <= k < listing.len() && listing[k] == j;
            if k < at {
                assert(longer[k] == j);
            } else {
                assert(longer[k + 1] == j);
            }
        }
    }
    assert forall|k: int, l: int| 0 <= k < l < longer.len() implies is_older(
        after,
        #[trigger] longer[k],
        #[trigger] longer[l],
    ) by {
        lemma_insert_ordered(names, listing, i, at, k, l);
    }
}

/// Two backups of a listing are in order once another is put in its place.
proof fn lemma_insert_ordered(
    names: Seq<Seq<u8>>,
    listing: Seq<int>,
    i: int,
    at: int,
    k: int,
    l: int,
)
    requires
        0 <= i < names.len(),
        is_listing(names.take(i), listing),
        0 <= at <= listing.len(),
        forall|k: int| 0 <= k < at ==> is_older(names, #[trigger] listing[k], i),
        at < listing.len() ==> is_older(names, i, listing[at]),
        0 <= k < l <= listing.len(),
    ensures
        is_older(names.take(i + 1), listing.insert(at, i)[k], listing.insert(at, i)[l]),
{
    let before = names.take(i);
    let longer = listing.insert(at, i);
    if k == at {
        let b = listing[l - 1];
        assert(longer[l] == b && 0 <= b < i);
        if l - 1 > at {
            let a = listing[at];
            assert(0 <= a < i);
            assert(is_older(before, a, b));
            assert(before[a] == names[a] && before[b] == names[b]);
            lemma_older_transitive(names, i, a, b);
        }
    } else if l == at {
        assert(longer[k] == listing[k] && 0 <= listing[k] < i);
    } else {
        let a = if k < at {
            listing[k]
        } else {
            listing[k - 1]
        };
        let b = if l < at {
            listing[l]
        } else {
            listing[l - 1]
        };
        assert(longer[k] == a && longer[l] == b);
        assert(0 <= a < i && 0 <= b < i);
        assert(is_older(before, a, b));
        assert(before[a] == names[a] && before[b] == names[b]);
    }
}

/// The places of the backups that are to be removed, the oldest first: all but
/// the newest that are kept.
pub fn backups_to_remove(names: &Vec<Vec<u8>>) -> (r: Vec<usize>)
    ensures
        exists|listing: Seq<int>| #[trigger]
            is_listing(byte_names(names@), listing) && places(r@) == listing.take(
                surplus(listing.len()),
            ),
{
    let mut listing = list_backups(names);
    let ghost all = places(listing@);
    if listing.len() > KEPT_BACKUPS {
        let n = listing.len() - KEPT_BACKUPS;
        listing.truncate(n);
    } else {
        listing.truncate(0);
    }
    assert(places(listing@) =~= all.take(surplus(all.len())));
    listing
}

} // verus!
