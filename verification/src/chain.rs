//! Certificate lists, and the order in which a chain is verified.

use vstd::prelude::*;

verus! {

/// An entry of a certificate list, as mathematical values.
pub enum EntryView {
    X509(Seq<u8>),
    RawPublicKey(Seq<u8>),
}

/// An entry of a certificate list.
#[derive(Clone, Copy)]
pub enum CertificateEntryRef<'a> {
    /// A DER-encoded certificate.
    X509(&'a [u8]),
    /// A bare public key.
    RawPublicKey(&'a [u8]),
}

impl<'a> View for CertificateEntryRef<'a> {
    type V = EntryView;

    open spec fn view(&self) -> EntryView {
        match self {
            CertificateEntryRef::X509(data) => EntryView::X509(data@),
            CertificateEntryRef::RawPublicKey(data) => EntryView::RawPublicKey(data@),
        }
    }
}

/// A certificate list as a server sends it: its own certificate comes first, and
/// each further one issued the one before it.
pub struct CertificateRef<'a> {
    pub entries: Vec<CertificateEntryRef<'a>>,
}

/// The views of the entries of a list.
pub open spec fn entry_views(list: Seq<CertificateEntryRef>) -> Seq<EntryView> {
    Seq::new(list.len(), |i: int| list[i]@)
}

impl<'a> View for CertificateRef<'a> {
    type V = Seq<EntryView>;

    open spec fn view(&self) -> Seq<EntryView> {
        entry_views(self.entries@)
    }
}

/// The pairs of issuer and subject of a chain, in the order in which they are
/// verified.
pub open spec fn chain_pairs(issuer: EntryView, entries: Seq<EntryView>) -> Seq<
    (EntryView, EntryView),
>
    decreases entries.len(),
{
    if entries.len() == 0 {
        seq![]
    } else {
        seq![(issuer, entries.last())] + chain_pairs(entries.last(), entries.drop_last())
    }
}

/// The pairs of issuer and subject of a chain, from the trusted authority down to
/// the first entry of the list.
pub struct CertificateChain<'a> {
    prev: &'a CertificateEntryRef<'a>,
    chain: &'a CertificateRef<'a>,
    remaining: usize,
}

impl<'a> CertificateChain<'a> {
    #[verifier::type_invariant]
    spec fn well_formed(self) -> bool {
        self.remaining <= self.chain.entries@.len()
    }

    /// The issuer of the next pair.
    pub closed spec fn issuer(self) -> EntryView {
        self.prev@
    }

    /// The entries that no pair had as its subject yet.
    pub closed spec fn pending(self) -> Seq<EntryView> {
        self.chain@.take(self.remaining as int)
    }

    /// The pairs that are still to come.
    pub open spec fn pairs(self) -> Seq<(EntryView, EntryView)> {
        chain_pairs(self.issuer(), self.pending())
    }

    /// The chain from the authority over the list.
    pub fn new(ca: &'a CertificateEntryRef<'a>, chain: &'a CertificateRef<'a>) -> (r: Self)
        ensures
            r.issuer() == ca@,
            r.pending() == chain@,
    {
        let r = CertificateChain { prev: ca, chain, remaining: chain.entries.len() };
        assert(r.pending() =~= chain@);
        r
    }

    /// The next pair of issuer and subject. The subject is the last entry left,
    /// and becomes the issuer of the pair after it.
    pub fn next(&mut self) -> (r: Option<(&'a CertificateEntryRef<'a>, &'a CertificateEntryRef<'a>)>)
        ensures
            match r {
                None => old(self).pending().len() == 0 && *final(self) == *old(self),
                Some((issuer, subject)) => {
                    &&& old(self).pairs() == seq![(issuer@, subject@)] + final(self).pairs()
                    &&& old(self).pending().len() > 0
                    &&& issuer@ == old(self).issuer()
                    &&& subject@ == old(self).pending().last()
                    &&& final(self).issuer() == subject@
                    &&& final(self).pending() == old(self).pending().drop_last()
                },
            },
    {
        proof {
            use_type_invariant(&*self);
        }
        if self.remaining == 0 {
            return None;
        }
        let chain: &'a CertificateRef<'a> = self.chain;
        let cur: &'a CertificateEntryRef<'a> = &chain.entries[self.remaining - 1];
        let out = (self.prev, cur);
        self.prev = cur;
        self.remaining = self.remaining - 1;
        assert(self.pending() =~= old(self).pending().drop_last());
        Some(out)
    }
}

} // verus!
