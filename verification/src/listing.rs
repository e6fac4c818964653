//! What a directory holds, stated over the sequence of its raw entries: the
//! listing stops at the end marker and skips deleted and long-name slots; a
//! lookup by name stops at the first entry that is the end marker or carries
//! the name.
use vstd::prelude::*;
use crate::fat16::{dir_entry_at, DirEntryView, FsError};

verus! {

/// The sixteen entries that a block holds.
pub open spec fn block_entries(b: Seq<u8>) -> Seq<DirEntryView> {
    Seq::new(16, |i: int| dir_entry_at(b, 32 * i))
}

/// Entries that a listing shows.
pub open spec fn shown(e: DirEntryView) -> bool {
    e.is_valid() && !e.is_long_name()
}

/// The shown entries of `s`, in order.
pub open spec fn filt(s: Seq<DirEntryView>) -> Seq<DirEntryView>
    decreases s.len(),
{
    if s.len() == 0 {
        Seq::empty()
    } else if shown(s.last()) {
        filt(s.drop_last()).push(s.last())
    } else {
        filt(s.drop_last())
    }
}

/// The position of the first end marker, or the length when there is none.
pub open spec fn eod_index(s: Seq<DirEntryView>) -> nat
    decreases s.len(),
{
    if s.len() == 0 {
        0
    } else if s[0].is_eod() {
        0
    } else {
        1 + eod_index(s.drop_first())
    }
}

pub open spec fn no_eod(s: Seq<DirEntryView>) -> bool {
    forall|i: int| 0 <= i < s.len() ==> !(#[trigger] s[i]).is_eod()
}

/// What listing a directory whose raw entries are `s` yields.
pub open spec fn listing(s: Seq<DirEntryView>) -> Seq<DirEntryView> {
    filt(s.take(eod_index(s) as int))
}

/// Whether `e` stops a lookup for the name `n`.
pub open spec fn stops_lookup(e: DirEntryView, n: (Seq<u8>, Seq<u8>)) -> bool {
    e.is_eod() || e.has_name(n)
}

pub open spec fn no_stop(s: Seq<DirEntryView>, n: (Seq<u8>, Seq<u8>)) -> bool {
    forall|i: int| 0 <= i < s.len() ==> !stops_lookup(#[trigger] s[i], n)
}

/// Looking up the name `n` among the raw entries `s`: the first entry that is
/// the end marker or carries the name decides.
pub open spec fn lookup(s: Seq<DirEntryView>, n: (Seq<u8>, Seq<u8>)) -> Result<DirEntryView, FsError>
    decreases s.len(),
{
    if s.len() == 0 {
        Err(FsError::FileNotFound)
    } else if s[0].is_eod() {
        Err(FsError::FileNotFound)
    } else if s[0].has_name(n) {
        Ok(s[0])
    } else {
        lookup(s.drop_first(), n)
    }
}

/// Looking up within one block: `NotInSector` when nothing in it decides.
pub open spec fn block_lookup(s: Seq<DirEntryView>, n: (Seq<u8>, Seq<u8>)) -> Result<DirEntryView, FsError> {
    if no_stop(s, n) {
        Err(FsError::NotInSector)
    } else {
        lookup(s, n)
    }
}

pub proof fn lemma_lookup_never_not_in_sector(s: Seq<DirEntryView>, n: (Seq<u8>, Seq<u8>))
    ensures
        lookup(s, n) != Err::<DirEntryView, FsError>(FsError::NotInSector),
        block_lookup(s, n) == Err::<DirEntryView, FsError>(FsError::NotInSector) ==> no_stop(s, n),
    decreases s.len(),
{
    if s.len() > 0 {
        lemma_lookup_never_not_in_sector(s.drop_first(), n);
    }
}

pub proof fn lemma_filt_append(a: Seq<DirEntryView>, b: Seq<DirEntryView>)
    ensures
        filt(a + b) == filt(a) + filt(b),
    decreases b.len(),
{
    if b.len() == 0 {
        assert(a + b =~= a);
        assert(filt(a) + filt(b) =~= filt(a));
    } else {
        assert((a + b).drop_last() =~= a + b.drop_last());
        assert((a + b).last() == b.last());
        lemma_filt_append(a, b.drop_last());
        if shown(b.last()) {
            assert(filt(a) + filt(b.drop_last()).push(b.last()) =~= (filt(a) + filt(
                b.drop_last(),
            )).push(b.last()));
        }
    }
}

pub proof fn lemma_eod_index_bounds(s: Seq<DirEntryView>)
    ensures
        eod_index(s) <= s.len(),
        eod_index(s) < s.len() ==> s[eod_index(s) as int].is_eod(),
        no_eod(s.take(eod_index(s) as int)),
        (eod_index(s) == s.len()) == no_eod(s),
    decreases s.len(),
{
    if s.len() > 0 && !s[0].is_eod() {
        lemma_eod_index_bounds(s.drop_first());
        let k = eod_index(s.drop_first());
        assert forall|i: int| 0 <= i < s.take(eod_index(s) as int).len() implies !(#[trigger] s.take(
            eod_index(s) as int,
        )[i]).is_eod() by {
            if i > 0 {
                assert(s.take(eod_index(s) as int)[i] == s.drop_first().take(k as int)[i - 1]);
            }
        }
        if no_eod(s) {
            assert forall|i: int| 0 <= i < s.drop_first().len() implies !(
            #[trigger] s.drop_first()[i]).is_eod() by {
                assert(s.drop_first()[i] == s[i + 1]);
            }
        }
        if no_eod(s.drop_first()) {
            assert forall|i: int| 0 <= i < s.len() implies !(#[trigger] s[i]).is_eod() by {
                if i > 0 {
                    assert(s[i] == s.drop_first()[i - 1]);
                }
            }
        }
    } else if s.len() > 0 {
        assert(!no_eod(s));
        assert(s.take(0) =~= Seq::<DirEntryView>::empty());
    } else {
        assert(s.take(0) =~= Seq::<DirEntryView>::empty());
    }
}

pub proof fn lemma_eod_index_append(a: Seq<DirEntryView>, b: Seq<DirEntryView>)
    ensures
        no_eod(a) ==> eod_index(a + b) == a.len() + eod_index(b),
        !no_eod(a) ==> eod_index(a + b) == eod_index(a),
    decreases a.len(),
{
    if a.len() == 0 {
        assert(a + b =~= b);
    } else {
        assert((a + b)[0] == a[0]);
        assert((a + b).drop_first() =~= a.drop_first() + b);
        lemma_eod_index_append(a.drop_first(), b);
        if no_eod(a) {
            assert forall|i: int| 0 <= i < a.drop_first().len() implies !(
            #[trigger] a.drop_first()[i]).is_eod() by {
                assert(a.drop_first()[i] == a[i + 1]);
            }
        } else if !a[0].is_eod() {
            if no_eod(a.drop_first()) {
                assert forall|i: int| 0 <= i < a.len() implies !(#[trigger] a[i]).is_eod() by {
                    if i > 0 {
                        assert(a[i] == a.drop_first()[i - 1]);
                    }
                }
            }
        }
    }
}

/// Listing a concatenation: the first part decides when it holds an end
/// marker, else its shown entries come before the listing of the rest.
pub proof fn lemma_listing_append(a: Seq<DirEntryView>, b: Seq<DirEntryView>)
    ensures
        no_eod(a) ==> listing(a + b) == filt(a) + listing(b),
        !no_eod(a) ==> listing(a + b) == listing(a),
{
    lemma_eod_index_append(a, b);
    lemma_eod_index_bounds(a);
    lemma_eod_index_bounds(b);
    if no_eod(a) {
        let k = eod_index(b);
        assert((a + b).take((a.len() + k) as int) =~= a + b.take(k as int));
        lemma_filt_append(a, b.take(k as int));
    } else {
        let k = eod_index(a);
        assert((a + b).take(k as int) =~= a.take(k as int));
    }
}

pub proof fn lemma_listing_no_eod(s: Seq<DirEntryView>)
    requires
        no_eod(s),
    ensures
        listing(s) == filt(s),
{
    lemma_eod_index_bounds(s);
    assert(s.take(s.len() as int) =~= s);
}

pub proof fn lemma_lookup_append(a: Seq<DirEntryView>, b: Seq<DirEntryView>, n: (Seq<u8>, Seq<u8>))
    ensures
        no_stop(a, n) ==> lookup(a + b, n) == lookup(b, n),
        !no_stop(a, n) ==> lookup(a + b, n) == lookup(a, n),
    decreases a.len(),
{
    if a.len() == 0 {
        assert(a + b =~= b);
    } else {
        assert((a + b)[0] == a[0]);
        assert((a + b).drop_first() =~= a.drop_first() + b);
        lemma_lookup_append(a.drop_first(), b, n);
        if no_stop(a, n) {
            assert(!stops_lookup(a[0], n));
            assert forall|i: int| 0 <= i < a.drop_first().len() implies !stops_lookup(
                #[trigger] a.drop_first()[i],
                n,
            ) by {
                assert(a.drop_first()[i] == a[i + 1]);
            }
        } else if !stops_lookup(a[0], n) {
            if no_stop(a.drop_first(), n) {
                assert forall|i: int| 0 <= i < a.len() implies !stops_lookup(#[trigger] a[i], n) by {
                    if i > 0 {
                        assert(a[i] == a.drop_first()[i - 1]);
                    }
                }
            }
        }
    }
}

/// An entry found by name is shown by the listing of the same entries,
/// unless it is a deleted or long-name slot.
pub proof fn law_found_entry_is_listed(s: Seq<DirEntryView>, n: (Seq<u8>, Seq<u8>), e: DirEntryView)
    requires
        lookup(s, n) == Ok::<DirEntryView, FsError>(e),
        shown(e),
    ensures
        listing(s).contains(e),
        e.has_name(n),
    decreases s.len(),
{
    assert(s.len() > 0);
    assert(!s[0].is_eod());
    assert(s =~= seq![s[0]] + s.drop_first());
    lemma_listing_append(seq![s[0]], s.drop_first());
    assert(no_eod(seq![s[0]]));
    let one = seq![s[0]];
    assert(one.drop_last() =~= Seq::<DirEntryView>::empty());
    if s[0].has_name(n) {
        assert(e == s[0]);
        assert(one.last() == e);
        assert(filt(one.drop_last()) =~= Seq::<DirEntryView>::empty());
        assert(filt(one) =~= seq![e]);
        assert((filt(one) + listing(s.drop_first()))[0] == e);
    } else {
        law_found_entry_is_listed(s.drop_first(), n, e);
        let l = listing(s.drop_first());
        let i = choose|i: int| 0 <= i < l.len() && l[i] == e;
        assert((filt(one) + l)[filt(one).len() + i] == e);
    }
}

/// Every entry that a listing shows can be looked up by its name: the
/// lookup finds an entry with that name (the entry itself, or an earlier
/// slot that carries the same name).
pub proof fn law_listed_entry_is_found(s: Seq<DirEntryView>, e: DirEntryView)
    requires
        listing(s).contains(e),
    ensures
        lookup(s, (e.name, e.ext)) matches Ok(f) && f.has_name((e.name, e.ext)),
    decreases s.len(),
{
    let n = (e.name, e.ext);
    if s.len() == 0 {
        assert(s.take(0) =~= s);
        assert(listing(s) =~= Seq::<DirEntryView>::empty());
    } else if s[0].is_eod() {
        assert(eod_index(s) == 0);
        assert(s.take(0) =~= Seq::<DirEntryView>::empty());
        assert(listing(s) =~= Seq::<DirEntryView>::empty());
    } else if !s[0].has_name(n) {
        let one = seq![s[0]];
        assert(s =~= one + s.drop_first());
        assert(no_eod(one));
        lemma_listing_append(one, s.drop_first());
        assert(one.drop_last() =~= Seq::<DirEntryView>::empty());
        assert(filt(one.drop_last()) =~= Seq::<DirEntryView>::empty());
        let l = listing(s.drop_first());
        let k = choose|k: int| 0 <= k < listing(s).len() && listing(s)[k] == e;
        if k < filt(one).len() {
            assert(filt(one)[k] == s[0]);
            assert(false);
        } else {
            assert(l[k - filt(one).len()] == e);
            law_listed_entry_is_found(s.drop_first(), e);
        }
    }
}

} // verus!
