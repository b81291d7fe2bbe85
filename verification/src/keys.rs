//! Key types for the library's association stores.
//!
//! Every store is keyed either by a plain integer handle, by a media
//! identifier string, or by a composite of the two.  A key type provides
//! executable equality and duplication that agree with its mathematical view,
//! which is all the stores need of it.

use vstd::prelude::*;

verus! {

/// A type usable as the key of an association store: executable equality and
/// duplication both mirror the key's view.
pub trait StoreKey: View + Sized {
    /// Equality of keys, decided exactly by their views.
    fn key_eq(&self, other: &Self) -> (b: bool)
        ensures
            b == (self@ == other@),
    ;

    /// An owned key with the same view.
    fn key_dup(&self) -> (d: Self)
        ensures
            d@ == self@,
    ;
}

impl StoreKey for u64 {
    fn key_eq(&self, other: &Self) -> (b: bool)
        ensures
            b == (self@ == other@),
    {
        *self == *other
    }

    fn key_dup(&self) -> (d: Self)
        ensures
            d@ == self@,
    {
        *self
    }
}

impl StoreKey for String {
    fn key_eq(&self, other: &Self) -> (b: bool)
        ensures
            b == (self@ == other@),
    {
        *self == *other
    }

    fn key_dup(&self) -> (d: Self)
        ensures
            d@ == self@,
    {
        self.clone()
    }
}

/// The key of a per-group membership index: one group together with one
/// candidate member.
pub struct GroupMemberKey<G> {
    pub group: G,
    pub member: u64,
}

impl<G: View> View for GroupMemberKey<G> {
    type V = (G::V, u64);

    open spec fn view(&self) -> (G::V, u64) {
        (self.group@, self.member)
    }
}

impl<G: StoreKey> StoreKey for GroupMemberKey<G> {
    fn key_eq(&self, other: &Self) -> (b: bool)
        ensures
            b == (self@ == other@),
    {
        self.group.key_eq(&other.group) && self.member == other.member
    }

    fn key_dup(&self) -> (d: Self)
        ensures
            d@ == self@,
    {
        GroupMemberKey { group: self.group.key_dup(), member: self.member }
    }
}

/// The key of the completion ledger: one user paired with one media
/// identifier, always in that order.
pub struct CompletionKey {
    pub user: u64,
    pub media: String,
}

impl View for CompletionKey {
    type V = (u64, Seq<char>);

    open spec fn view(&self) -> (u64, Seq<char>) {
        (self.user, self.media@)
    }
}

impl StoreKey for CompletionKey {
    fn key_eq(&self, other: &Self) -> (b: bool)
        ensures
            b == (self@ == other@),
    {
        self.user == other.user && self.media == other.media
    }

    fn key_dup(&self) -> (d: Self)
        ensures
            d@ == self@,
    {
        CompletionKey { user: self.user, media: self.media.clone() }
    }
}

} // verus!
