//! The bookkeeping state and its lifecycle operations.
//!
//! One value of [`State`] holds every store of the system: the media
//! catalog, the completion ledger, token ownership, the per-user token
//! lists, the per-media completer lists and the per-media discussion
//! groups, plus the two privileged identities and the token counter.  The
//! hosting platform calls one operation at a time and commits the whole
//! mutation or none of it; every operation here validates before it
//! mutates, so a failed call leaves the state untouched.

use vstd::prelude::*;
use vstd::string::StringExecFns;
use vstd::string::StringSliceAdditionalSpecFns;

use crate::error::Error;
use crate::indexed_set::IndexedSet;
use crate::keys::CompletionKey;
use crate::vec_map::VecMap;
use crate::Identity;
use crate::TokenId;

verus! {

/// The two states agree on the whole completion/token core: the counter,
/// both token maps, the completion ledger, and all three membership
/// collections.
pub open spec fn same_core(pre: State, post: State) -> bool {
    &&& post.spec_next_token() == pre.spec_next_token()
    &&& post.token_owner_map() == pre.token_owner_map()
    &&& post.token_media_map() == pre.token_media_map()
    &&& post.completion_map() == pre.completion_map()
    &&& forall|u: Identity| post.user_tokens_seq(u) == pre.user_tokens_seq(u)
    &&& forall|m: Seq<char>| post.completers_seq(m) == pre.completers_seq(m)
    &&& forall|m: Seq<char>| post.group_seq(m) == pre.group_seq(m)
}

/// The two states agree on the administrative records: the two privileged
/// identities, the registrar allow-list, the display-uri prefix and the
/// media catalog.
pub open spec fn same_admin(pre: State, post: State) -> bool {
    &&& post.spec_owner() == pre.spec_owner()
    &&& post.spec_backend() == pre.spec_backend()
    &&& post.registrar_map() == pre.registrar_map()
    &&& post.spec_base_uri() == pre.spec_base_uri()
    &&& post.media_map() == pre.media_map()
}

/// Strictly increasing order: the canonical shape of a de-duplicated result
/// list.
pub open spec fn sorted_strict(s: Seq<u64>) -> bool {
    forall|i: int, j: int| 0 <= i < j < s.len() ==> s[i] < s[j]
}

/// Inserts `x` into a strictly sorted vector, keeping it strictly sorted; a
/// no-op when `x` is already present.
fn insert_sorted(v: &mut Vec<u64>, x: u64)
    requires
        sorted_strict(old(v)@),
    ensures
        sorted_strict(final(v)@),
        forall|y: u64| final(v)@.contains(y) == (old(v)@.contains(y) || y == x),
{
    let n = v.len();
    let mut i: usize = 0;
    while i < n && v[i] < x
        invariant
            n == v@.len(),
            0 <= i <= n,
            forall|j: int| 0 <= j < i ==> v@[j] < x,
            sorted_strict(v@),
        decreases n - i,
    {
        i = i + 1;
    }
    if i < n && v[i] == x {
        proof {
            assert(v@[i as int] == x);
            assert(v@.contains(x));
        }
        return;
    }
    proof {
        assert(i < n ==> v@[i as int] > x);
        assert(!old(v)@.contains(x)) by {
            if old(v)@.contains(x) {
                let j = choose|j: int| 0 <= j < v@.len() && v@[j] == x;
                assert(j >= i);
                assert(j > i ==> v@[i as int] < v@[j]);
            }
        }
    }
    v.insert(i, x);
    proof {
        let s = old(v)@;
        let s2 = v@;
        assert(s2 == s.insert(i as int, x));
        assert(s2.len() == s.len() + 1);
        assert forall|j: int| 0 <= j < s2.len() implies s2[j] == (if j < i as int {
            s[j]
        } else if j == i as int {
            x
        } else {
            s[j - 1]
        }) by {}
        assert forall|j: int, l: int| 0 <= j < l < s2.len() implies s2[j] < s2[l] by {
            if j < i as int && l == i as int {
                assert(s2[j] == s[j] && s[j] < x);
            } else if j == i as int && l > i as int {
                assert(s2[l] == s[l - 1]);
                assert(l - 1 >= i as int);
                if l - 1 == i as int {
                    assert(s[l - 1] > x);
                } else {
                    assert(s[i as int] < s[l - 1]);
                    assert(s[i as int] > x);
                }
            } else if j < i as int && l > i as int {
                assert(s2[j] == s[j] && s2[l] == s[l - 1]);
                assert(j < l - 1 ==> s[j] < s[l - 1]);
                if j == l - 1 {
                    assert(s[j] < x && x < s2[l]);
                }
            }
        }
        assert forall|y: u64| s2.contains(y) implies (s.contains(y) || y == x) by {
            let j = choose|j: int| 0 <= j < s2.len() && s2[j] == y;
            if j < i as int {
                assert(s[j] == y);
            } else if j > i as int {
                assert(s[j - 1] == y);
            }
        }
        assert forall|y: u64| (s.contains(y) || y == x) implies s2.contains(y) by {
            if y == x {
                assert(s2[i as int] == x);
            } else {
                let j = choose|j: int| 0 <= j < s.len() && s[j] == y;
                if j < i as int {
                    assert(s2[j] == y);
                } else {
                    assert(s2[j + 1] == y);
                }
            }
        }
    }
}

/// One step of filtering a sequence prefix.
proof fn lemma_filter_take_step<A>(s: Seq<A>, i: int, pred: spec_fn(A) -> bool)
    requires
        0 <= i < s.len(),
    ensures
        s.take(i + 1).filter(pred) == if pred(s[i]) {
            s.take(i).filter(pred).push(s[i])
        } else {
            s.take(i).filter(pred)
        },
{
    reveal(Seq::filter);
    let t = s.take(i + 1);
    assert(t.drop_last() =~= s.take(i));
    assert(t.last() == s[i]);
}

/// The catalog entry of one media item.  `registered` distinguishes a record
/// created by an explicit registration from one merely referenced.
pub struct MediaRecord {
    pub kind: u8,
    pub registered: bool,
    pub uri: String,
    pub name: String,
}

/// The mathematical content of a catalog entry.
#[verifier::ext_equal]
pub struct MediaView {
    pub kind: u8,
    pub registered: bool,
    pub uri: Seq<char>,
    pub name: Seq<char>,
}

impl View for MediaRecord {
    type V = MediaView;

    open spec fn view(&self) -> MediaView {
        MediaView { kind: self.kind, registered: self.registered, uri: self.uri@, name: self.name@ }
    }
}

/// The whole bookkeeping state.
pub struct State {
    owner: Identity,
    backend: Identity,
    registrars: VecMap<u64, bool>,
    base_uri: String,
    next_token_id: u64,
    media: VecMap<String, MediaRecord>,
    token_owner: VecMap<u64, u64>,
    token_media: VecMap<u64, String>,
    completion: VecMap<CompletionKey, u64>,
    user_tokens: IndexedSet<u64>,
    media_completers: IndexedSet<String>,
    group_members: IndexedSet<String>,
}

impl State {
    /// The catalog owner: set once at creation, may edit metadata and assign
    /// the backend.
    pub closed spec fn spec_owner(&self) -> Identity {
        self.owner
    }

    /// The identity authorized to record completions on users' behalf.
    pub closed spec fn spec_backend(&self) -> Identity {
        self.backend
    }

    /// The registrar allow-list, an administrative capability toggle that no
    /// operation currently checks.
    pub closed spec fn registrar_map(&self) -> Map<Identity, bool> {
        self.registrars@
    }

    /// The configured display-uri prefix.
    pub closed spec fn spec_base_uri(&self) -> Seq<char> {
        self.base_uri@
    }

    /// The next token identifier to allocate; strictly increasing.
    pub closed spec fn spec_next_token(&self) -> TokenId {
        self.next_token_id
    }

    /// The media catalog, by media identifier.
    pub closed spec fn media_map(&self) -> Map<Seq<char>, MediaView> {
        self.media@
    }

    /// Token ownership: token identifier to the completing user.
    pub closed spec fn token_owner_map(&self) -> Map<TokenId, Identity> {
        self.token_owner@
    }

    /// The media item each token was minted for.
    pub closed spec fn token_media_map(&self) -> Map<TokenId, Seq<char>> {
        self.token_media@
    }

    /// The completion ledger: (user, media identifier) to token identifier.
    pub closed spec fn completion_map(&self) -> Map<(Identity, Seq<char>), TokenId> {
        self.completion@
    }

    /// The token list of one user.
    pub closed spec fn user_tokens_seq(&self, u: Identity) -> Seq<TokenId> {
        self.user_tokens.members_of(u)
    }

    /// The completer list of one media item.
    pub closed spec fn completers_seq(&self, m: Seq<char>) -> Seq<Identity> {
        self.media_completers.members_of(m)
    }

    /// The discussion-group member list of one media item.
    pub closed spec fn group_seq(&self, m: Seq<char>) -> Seq<Identity> {
        self.group_members.members_of(m)
    }

    /// The one-based position of token `t` in `u`'s token list; 0 when absent.
    pub closed spec fn user_token_index1(&self, u: Identity, t: TokenId) -> usize {
        self.user_tokens.spec_index1(u, t)
    }

    /// The one-based position of user `u` in `m`'s completer list; 0 when absent.
    pub closed spec fn completer_index1(&self, m: Seq<char>, u: Identity) -> usize {
        self.media_completers.spec_index1(m, u)
    }

    /// The one-based position of user `u` in `m`'s group list; 0 when absent.
    pub closed spec fn group_index1(&self, m: Seq<char>, u: Identity) -> usize {
        self.group_members.spec_index1(m, u)
    }

    /// The relational invariant of the whole state.  Every completion entry
    /// is mirrored by token ownership, token media, the user's token list
    /// and the media's completer list; every mirror points back at a
    /// completion entry; group members have completed; allocated token
    /// identifiers are nonzero and lie strictly below the counter.
    pub open spec fn wf(&self) -> bool {
        &&& self.stores_wf()
        &&& self.spec_next_token() >= 1
        &&& forall|t: TokenId| #[trigger]
            self.token_owner_map().contains_key(t) ==> 1 <= t < self.spec_next_token()
        &&& forall|t: TokenId| #[trigger]
            self.token_owner_map().contains_key(t) ==> self.token_media_map().contains_key(t)
        &&& forall|t: TokenId| #[trigger]
            self.token_media_map().contains_key(t) ==> self.token_owner_map().contains_key(t)
        &&& forall|u: Identity, m: Seq<char>| #[trigger]
            self.completion_map().contains_key((u, m)) ==> {
                let t = self.completion_map()[(u, m)];
                &&& self.token_owner_map().contains_key(t)
                &&& self.token_owner_map()[t] == u
                &&& self.token_media_map()[t] == m
                &&& self.user_tokens_seq(u).contains(t)
                &&& self.completers_seq(m).contains(u)
            }
        &&& forall|t: TokenId| #[trigger]
            self.token_owner_map().contains_key(t) ==> {
                let u = self.token_owner_map()[t];
                let m = self.token_media_map()[t];
                &&& self.completion_map().contains_key((u, m))
                &&& self.completion_map()[(u, m)] == t
            }
        &&& forall|u: Identity, t: TokenId| #[trigger]
            self.user_tokens_seq(u).contains(t) ==> {
                &&& self.token_owner_map().contains_key(t)
                &&& self.token_owner_map()[t] == u
            }
        &&& forall|m: Seq<char>, u: Identity| #[trigger]
            self.completers_seq(m).contains(u) ==> self.completion_map().contains_key(
                (u, m),
            )
        &&& forall|m: Seq<char>, u: Identity| #[trigger]
            self.group_seq(m).contains(u) ==> self.completion_map().contains_key((u, m))
    }

    /// Well-formedness of the underlying stores.
    pub closed spec fn stores_wf(&self) -> bool {
        &&& self.registrars.wf()
        &&& self.media.wf()
        &&& self.token_owner.wf()
        &&& self.token_media.wf()
        &&& self.completion.wf()
        &&& self.user_tokens.wf()
        &&& self.media_completers.wf()
        &&& self.group_members.wf()
    }

    /// A fresh state: the deploying caller owns the catalog and initially
    /// also acts as the backend; the token counter starts at one and every
    /// store is empty.
    pub fn new(deployer: Identity) -> (r: State)
        ensures
            r.wf(),
            r.spec_owner() == deployer,
            r.spec_backend() == deployer,
            r.spec_base_uri() == Seq::<char>::empty(),
            r.spec_next_token() == 1,
            r.registrar_map() == Map::<Identity, bool>::empty(),
            r.media_map() == Map::<Seq<char>, MediaView>::empty(),
            r.token_owner_map() == Map::<TokenId, Identity>::empty(),
            r.token_media_map() == Map::<TokenId, Seq<char>>::empty(),
            r.completion_map() == Map::<(Identity, Seq<char>), TokenId>::empty(),
            forall|u: Identity| r.user_tokens_seq(u) == Seq::<TokenId>::empty(),
            forall|m: Seq<char>| r.completers_seq(m) == Seq::<Identity>::empty(),
            forall|m: Seq<char>| r.group_seq(m) == Seq::<Identity>::empty(),
    {
        State {
            owner: deployer,
            backend: deployer,
            registrars: VecMap::new(),
            base_uri: String::new(),
            next_token_id: 1,
            media: VecMap::new(),
            token_owner: VecMap::new(),
            token_media: VecMap::new(),
            completion: VecMap::new(),
            user_tokens: IndexedSet::new(),
            media_completers: IndexedSet::new(),
            group_members: IndexedSet::new(),
        }
    }

    /// Whether `user` has completed the media item `media_id`.
    pub fn has_completed(&self, user: Identity, media_id: &str) -> (b: bool)
        requires
            self.wf(),
        ensures
            b == self.completion_map().contains_key((user, media_id@)),
    {
        let key = CompletionKey { user, media: String::from_str(media_id) };
        match self.completion.get(&key) {
            Some(_) => true,
            None => false,
        }
    }

    /// The token identifiers currently held by `user`, in backing order.
    pub fn user_token_ids(&self, user: Identity) -> (r: Vec<TokenId>)
        requires
            self.wf(),
        ensures
            r@ == self.user_tokens_seq(user),
    {
        self.user_tokens.members_vec(&user)
    }

    /// Whether `from` and `to` have both completed the media item.
    pub fn can_text(&self, from: Identity, to: Identity, media_id: &str) -> (b: bool)
        requires
            self.wf(),
        ensures
            b == (self.completion_map().contains_key((from, media_id@))
                && self.completion_map().contains_key((to, media_id@))),
    {
        let from_ok = self.has_completed(from, media_id);
        let to_ok = self.has_completed(to, media_id);
        from_ok && to_ok
    }

    /// Whether `user` has completed the media item and is not yet in its
    /// group.
    pub fn can_join_group(&self, user: Identity, media_id: &str) -> (b: bool)
        requires
            self.wf(),
        ensures
            b == (self.completion_map().contains_key((user, media_id@))
                && !self.group_seq(media_id@).contains(user)),
    {
        let has = self.has_completed(user, media_id);
        let in_group = self.group_members.contains(&String::from_str(media_id), user);
        has && !in_group
    }

    /// Whether `user` is in the media item's discussion group.
    pub fn is_group_member(&self, media_id: &str, user: Identity) -> (b: bool)
        requires
            self.wf(),
        ensures
            b == self.group_seq(media_id@).contains(user),
    {
        self.group_members.contains(&String::from_str(media_id), user)
    }

    /// The number of members in the media item's discussion group.
    pub fn group_member_count(&self, media_id: &str) -> (n: usize)
        requires
            self.wf(),
        ensures
            n == self.group_seq(media_id@).len(),
    {
        self.group_members.count(&String::from_str(media_id))
    }

    /// The group member at zero-based position `index`; out of range exactly
    /// when `index` is not below the member count.
    pub fn group_member_at(&self, media_id: &str, index: usize) -> (r: Result<Identity, Error>)
        requires
            self.wf(),
        ensures
            match r {
                Ok(u) => index < self.group_seq(media_id@).len() && u == self.group_seq(
                    media_id@,
                )[index as int],
                Err(e) => e == Error::OutOfRange && index >= self.group_seq(media_id@).len(),
            },
    {
        let key = String::from_str(media_id);
        if index < self.group_members.count(&key) {
            Ok(self.group_members.at(&key, index))
        } else {
            Err(Error::OutOfRange)
        }
    }

    /// In every well-formed state, a completion entry is fully mirrored:
    /// the recorded token exists and belongs to the completing user, it
    /// stands in that user's token list, and the user stands exactly once
    /// in the media's completer list.
    pub proof fn lemma_completion_mirrored(&self, u: Identity, m: Seq<char>)
        requires
            self.wf(),
            self.completion_map().contains_key((u, m)),
        ensures
            ({
                let t = self.completion_map()[(u, m)];
                &&& self.token_owner_map().contains_key(t)
                &&& self.token_owner_map()[t] == u
                &&& self.token_media_map()[t] == m
                &&& self.user_tokens_seq(u).contains(t)
                &&& self.completers_seq(m).to_multiset().count(u) == 1
            }),
    {
        self.media_completers.lemma_enumerates(m);
        let s = self.completers_seq(m);
        s.lemma_multiset_has_no_duplicates();
        s.to_multiset_ensures();
        assert(s.contains(u));
        assert(s.to_multiset().count(u) > 0);
        assert(s.to_multiset().contains(u));
    }

    /// In every well-formed state, a user's token list is consistent with
    /// its recorded positions: no token appears twice, the recorded
    /// one-based position of a token is zero exactly when the user does not
    /// hold it, and a held token's position points at its slot.
    pub proof fn lemma_user_tokens_consistent(&self, u: Identity)
        requires
            self.wf(),
        ensures
            self.user_tokens_seq(u).no_duplicates(),
            self.user_tokens_seq(u).to_set().len() == self.user_tokens_seq(u).len(),
            forall|t: TokenId|
                #![trigger self.user_token_index1(u, t)]
                {
                    &&& (self.user_token_index1(u, t) == 0) <==> !self.user_tokens_seq(
                        u,
                    ).contains(t)
                    &&& self.user_tokens_seq(u).contains(t) ==> {
                        &&& 1 <= self.user_token_index1(u, t) <= self.user_tokens_seq(u).len()
                        &&& self.user_tokens_seq(u)[self.user_token_index1(u, t) - 1] == t
                    }
                },
    {
        self.user_tokens.lemma_enumerates(u);
        assert forall|t: TokenId|
            {
                &&& (#[trigger] self.user_token_index1(u, t) == 0) <==> !self.user_tokens_seq(
                    u,
                ).contains(t)
                &&& self.user_tokens_seq(u).contains(t) ==> {
                    &&& 1 <= self.user_token_index1(u, t) <= self.user_tokens_seq(u).len()
                    &&& self.user_tokens_seq(u)[self.user_token_index1(u, t) - 1] == t
                }
            } by {
            self.user_tokens.lemma_index1(u, t);
        }
    }

    /// In every well-formed state, a media item's completer list is
    /// consistent with its recorded positions, as for token lists.
    pub proof fn lemma_completers_consistent(&self, m: Seq<char>)
        requires
            self.wf(),
        ensures
            self.completers_seq(m).no_duplicates(),
            self.completers_seq(m).to_set().len() == self.completers_seq(m).len(),
            forall|u: Identity|
                #![trigger self.completer_index1(m, u)]
                {
                    &&& (self.completer_index1(m, u) == 0) <==> !self.completers_seq(m).contains(u)
                    &&& self.completers_seq(m).contains(u) ==> {
                        &&& 1 <= self.completer_index1(m, u) <= self.completers_seq(m).len()
                        &&& self.completers_seq(m)[self.completer_index1(m, u) - 1] == u
                    }
                },
    {
        self.media_completers.lemma_enumerates(m);
        assert forall|u: Identity|
            {
                &&& (#[trigger] self.completer_index1(m, u) == 0) <==> !self.completers_seq(
                    m,
                ).contains(u)
                &&& self.completers_seq(m).contains(u) ==> {
                    &&& 1 <= self.completer_index1(m, u) <= self.completers_seq(m).len()
                    &&& self.completers_seq(m)[self.completer_index1(m, u) - 1] == u
                }
            } by {
            self.media_completers.lemma_index1(m, u);
        }
    }

    /// In every well-formed state, a media item's group list is consistent
    /// with its recorded positions, as for token lists: in particular the
    /// list has no duplicates, so its length counts the distinct members,
    /// and membership agrees with a nonzero recorded index.
    pub proof fn lemma_group_consistent(&self, m: Seq<char>)
        requires
            self.wf(),
        ensures
            self.group_seq(m).no_duplicates(),
            self.group_seq(m).to_set().len() == self.group_seq(m).len(),
            forall|u: Identity|
                #![trigger self.group_index1(m, u)]
                {
                    &&& (self.group_index1(m, u) == 0) <==> !self.group_seq(m).contains(u)
                    &&& self.group_seq(m).contains(u) ==> {
                        &&& 1 <= self.group_index1(m, u) <= self.group_seq(m).len()
                        &&& self.group_seq(m)[self.group_index1(m, u) - 1] == u
                    }
                },
    {
        self.group_members.lemma_enumerates(m);
        assert forall|u: Identity|
            {
                &&& (#[trigger] self.group_index1(m, u) == 0) <==> !self.group_seq(m).contains(u)
                &&& self.group_seq(m).contains(u) ==> {
                    &&& 1 <= self.group_index1(m, u) <= self.group_seq(m).len()
                    &&& self.group_seq(m)[self.group_index1(m, u) - 1] == u
                }
            } by {
            self.group_members.lemma_index1(m, u);
        }
    }

    /// An operation that leaves the whole completion/token core untouched
    /// preserves the relational invariant.
    proof fn lemma_wf_frame(pre: State, post: State)
        requires
            pre.wf(),
            post.stores_wf(),
            same_core(pre, post),
        ensures
            post.wf(),
    {
        assert(post.spec_next_token() == pre.spec_next_token());
        assert forall|t: TokenId| #[trigger]
            post.token_owner_map().contains_key(t) implies 1 <= t < post.spec_next_token()
            && post.token_media_map().contains_key(t) && {
            let u = post.token_owner_map()[t];
            let m = post.token_media_map()[t];
            &&& post.completion_map().contains_key((u, m))
            &&& post.completion_map()[(u, m)] == t
        } by {
            assert(pre.token_owner_map().contains_key(t));
        }
        assert forall|t: TokenId| #[trigger]
            post.token_media_map().contains_key(t) implies post.token_owner_map().contains_key(
            t,
        ) by {
            assert(pre.token_media_map().contains_key(t));
        }
        assert forall|u: Identity, m: Seq<char>| #[trigger]
            post.completion_map().contains_key((u, m)) implies {
            let t = post.completion_map()[(u, m)];
            &&& post.token_owner_map().contains_key(t)
            &&& post.token_owner_map()[t] == u
            &&& post.token_media_map()[t] == m
            &&& post.user_tokens_seq(u).contains(t)
            &&& post.completers_seq(m).contains(u)
        } by {
            assert(pre.completion_map().contains_key((u, m)));
            assert(post.user_tokens_seq(u) == pre.user_tokens_seq(u));
            assert(post.completers_seq(m) == pre.completers_seq(m));
        }
        assert forall|u: Identity, t: TokenId| #[trigger]
            post.user_tokens_seq(u).contains(t) implies post.token_owner_map().contains_key(t)
            && post.token_owner_map()[t] == u by {
            assert(post.user_tokens_seq(u) == pre.user_tokens_seq(u));
            assert(pre.user_tokens_seq(u).contains(t));
        }
        assert forall|m: Seq<char>, u: Identity| #[trigger]
            post.completers_seq(m).contains(u) implies post.completion_map().contains_key(
            (u, m),
        ) by {
            assert(post.completers_seq(m) == pre.completers_seq(m));
            assert(pre.completers_seq(m).contains(u));
        }
        assert forall|m: Seq<char>, u: Identity| #[trigger]
            post.group_seq(m).contains(u) implies post.completion_map().contains_key((u, m)) by {
            assert(post.group_seq(m) == pre.group_seq(m));
            assert(pre.group_seq(m).contains(u));
        }
    }

    /// Reassigns the backend identity; owner only.
    pub fn set_backend(&mut self, caller: Identity, backend: Identity) -> (r: Result<(), Error>)
        requires
            old(self).wf(),
        ensures
            final(self).wf(),
            match r {
                Ok(()) => {
                    &&& caller == old(self).spec_owner()
                    &&& final(self).spec_backend() == backend
                    &&& final(self).spec_owner() == old(self).spec_owner()
                    &&& final(self).registrar_map() == old(self).registrar_map()
                    &&& final(self).spec_base_uri() == old(self).spec_base_uri()
                    &&& final(self).media_map() == old(self).media_map()
                    &&& same_core(*old(self), *final(self))
                },
                Err(e) => {
                    &&& e == Error::Unauthorized
                    &&& caller != old(self).spec_owner()
                    &&& *final(self) == *old(self)
                },
            },
    {
        if caller != self.owner {
            return Err(Error::Unauthorized);
        }
        self.backend = backend;
        proof {
            State::lemma_wf_frame(*old(self), *self);
        }
        Ok(())
    }

    /// Records `allowed` for `registrar` in the allow-list; owner only.  No
    /// operation currently consults the list: it is a reserved capability.
    pub fn set_registrar(&mut self, caller: Identity, registrar: Identity, allowed: bool) -> (r:
        Result<(), Error>)
        requires
            old(self).wf(),
        ensures
            final(self).wf(),
            match r {
                Ok(()) => {
                    &&& caller == old(self).spec_owner()
                    &&& final(self).registrar_map() == old(self).registrar_map().insert(
                        registrar,
                        allowed,
                    )
                    &&& final(self).spec_owner() == old(self).spec_owner()
                    &&& final(self).spec_backend() == old(self).spec_backend()
                    &&& final(self).spec_base_uri() == old(self).spec_base_uri()
                    &&& final(self).media_map() == old(self).media_map()
                    &&& same_core(*old(self), *final(self))
                },
                Err(e) => {
                    &&& e == Error::Unauthorized
                    &&& caller != old(self).spec_owner()
                    &&& *final(self) == *old(self)
                },
            },
    {
        if caller != self.owner {
            return Err(Error::Unauthorized);
        }
        self.registrars.insert(registrar, allowed);
        proof {
            State::lemma_wf_frame(*old(self), *self);
        }
        Ok(())
    }

    /// Sets the display-uri prefix used by `token_uri`; owner only.
    pub fn set_base_uri(&mut self, caller: Identity, base_uri: &str) -> (r: Result<(), Error>)
        requires
            old(self).wf(),
        ensures
            final(self).wf(),
            match r {
                Ok(()) => {
                    &&& caller == old(self).spec_owner()
                    &&& final(self).spec_base_uri() == base_uri@
                    &&& final(self).spec_owner() == old(self).spec_owner()
                    &&& final(self).spec_backend() == old(self).spec_backend()
                    &&& final(self).registrar_map() == old(self).registrar_map()
                    &&& final(self).media_map() == old(self).media_map()
                    &&& same_core(*old(self), *final(self))
                },
                Err(e) => {
                    &&& e == Error::Unauthorized
                    &&& caller != old(self).spec_owner()
                    &&& *final(self) == *old(self)
                },
            },
    {
        if caller != self.owner {
            return Err(Error::Unauthorized);
        }
        self.base_uri = String::from_str(base_uri);
        proof {
            State::lemma_wf_frame(*old(self), *self);
        }
        Ok(())
    }

    /// Overwrites the uri of a registered media record; owner only.  Not
    /// found when the record is absent or was never explicitly registered.
    pub fn set_media_uri(&mut self, caller: Identity, media_id: &str, uri: &str) -> (r: Result<
        (),
        Error,
    >)
        requires
            old(self).wf(),
        ensures
            final(self).wf(),
            match r {
                Ok(()) => {
                    &&& caller == old(self).spec_owner()
                    &&& old(self).media_map().contains_key(media_id@)
                    &&& old(self).media_map()[media_id@].registered
                    &&& final(self).media_map() == old(self).media_map().insert(
                        media_id@,
                        (MediaView {
                            uri: uri@,
                            ..old(self).media_map()[media_id@]
                        }),
                    )
                    &&& final(self).spec_owner() == old(self).spec_owner()
                    &&& final(self).spec_backend() == old(self).spec_backend()
                    &&& final(self).registrar_map() == old(self).registrar_map()
                    &&& final(self).spec_base_uri() == old(self).spec_base_uri()
                    &&& same_core(*old(self), *final(self))
                },
                Err(e) => {
                    &&& *final(self) == *old(self)
                    &&& (caller != old(self).spec_owner() || !(old(self).media_map().contains_key(
                        media_id@,
                    ) && old(self).media_map()[media_id@].registered))
                    &&& (e == Error::Unauthorized <==> caller != old(self).spec_owner())
                    &&& (e == Error::NotFound <==> (caller == old(self).spec_owner() && !(old(
                        self,
                    ).media_map().contains_key(media_id@)
                        && old(self).media_map()[media_id@].registered)))
                },
            },
    {
        if caller != self.owner {
            return Err(Error::Unauthorized);
        }
        let key = String::from_str(media_id);
        let updated = match self.media.get(&key) {
            Some(rec) => {
                if !rec.registered {
                    return Err(Error::NotFound);
                }
                MediaRecord {
                    kind: rec.kind,
                    registered: rec.registered,
                    uri: String::from_str(uri),
                    name: rec.name.clone(),
                }
            },
            None => {
                return Err(Error::NotFound);
            },
        };
        self.media.insert(key, updated);
        proof {
            assert(self.media_map() =~= old(self).media_map().insert(
                media_id@,
                (MediaView { uri: uri@, ..old(self).media_map()[media_id@] }),
            ));
            State::lemma_wf_frame(*old(self), *self);
        }
        Ok(())
    }

    /// Overwrites the kind code of a registered media record; owner only.
    /// Not found when the record is absent or was never explicitly
    /// registered.
    pub fn set_media_kind(&mut self, caller: Identity, media_id: &str, kind: u8) -> (r: Result<
        (),
        Error,
    >)
        requires
            old(self).wf(),
        ensures
            final(self).wf(),
            match r {
                Ok(()) => {
                    &&& caller == old(self).spec_owner()
                    &&& old(self).media_map().contains_key(media_id@)
                    &&& old(self).media_map()[media_id@].registered
                    &&& final(self).media_map() == old(self).media_map().insert(
                        media_id@,
                        (MediaView {
                            kind: kind,
                            ..old(self).media_map()[media_id@]
                        }),
                    )
                    &&& final(self).spec_owner() == old(self).spec_owner()
                    &&& final(self).spec_backend() == old(self).spec_backend()
                    &&& final(self).registrar_map() == old(self).registrar_map()
                    &&& final(self).spec_base_uri() == old(self).spec_base_uri()
                    &&& same_core(*old(self), *final(self))
                },
                Err(e) => {
                    &&& *final(self) == *old(self)
                    &&& (caller != old(self).spec_owner() || !(old(self).media_map().contains_key(
                        media_id@,
                    ) && old(self).media_map()[media_id@].registered))
                    &&& (e == Error::Unauthorized <==> caller != old(self).spec_owner())
                    &&& (e == Error::NotFound <==> (caller == old(self).spec_owner() && !(old(
                        self,
                    ).media_map().contains_key(media_id@)
                        && old(self).media_map()[media_id@].registered)))
                },
            },
    {
        if caller != self.owner {
            return Err(Error::Unauthorized);
        }
        let key = String::from_str(media_id);
        let updated = match self.media.get(&key) {
            Some(rec) => {
                if !rec.registered {
                    return Err(Error::NotFound);
                }
                MediaRecord {
                    kind,
                    registered: rec.registered,
                    uri: rec.uri.clone(),
                    name: rec.name.clone(),
                }
            },
            None => {
                return Err(Error::NotFound);
            },
        };
        self.media.insert(key, updated);
        proof {
            assert(self.media_map() =~= old(self).media_map().insert(
                media_id@,
                (MediaView { kind: kind, ..old(self).media_map()[media_id@] }),
            ));
            State::lemma_wf_frame(*old(self), *self);
        }
        Ok(())
    }

    /// The owner of a token; not found exactly when the token is unknown.
    pub fn owner_of(&self, token_id: TokenId) -> (r: Result<Identity, Error>)
        requires
            self.wf(),
        ensures
            match r {
                Ok(u) => self.token_owner_map().contains_key(token_id)
                    && u == self.token_owner_map()[token_id],
                Err(e) => e == Error::NotFound && !self.token_owner_map().contains_key(token_id),
            },
    {
        match self.token_owner.get(&token_id) {
            Some(u) => Ok(*u),
            None => Err(Error::NotFound),
        }
    }

    /// The display uri of a token: the media record's own uri when
    /// non-empty, else the configured prefix followed by the media
    /// identifier, else empty.  Not found exactly when the token is unknown.
    pub fn token_uri(&self, token_id: TokenId) -> (r: Result<String, Error>)
        requires
            self.wf(),
        ensures
            match r {
                Ok(s) => self.token_owner_map().contains_key(token_id) && {
                    let m = self.token_media_map()[token_id];
                    let rec_uri = if self.media_map().contains_key(m) {
                        self.media_map()[m].uri
                    } else {
                        Seq::<char>::empty()
                    };
                    s@ == if rec_uri.len() > 0 {
                        rec_uri
                    } else if self.spec_base_uri().len() > 0 {
                        self.spec_base_uri() + m
                    } else {
                        Seq::<char>::empty()
                    }
                },
                Err(e) => e == Error::NotFound && !self.token_owner_map().contains_key(token_id),
            },
    {
        match self.token_owner.get(&token_id) {
            Some(_) => {},
            None => {
                return Err(Error::NotFound);
            },
        }
        let media_id = match self.token_media.get(&token_id) {
            Some(s) => s.clone(),
            None => {
                proof {
                    assert(self.token_owner_map().contains_key(token_id));
                    assert(self.token_media_map().contains_key(token_id));
                }
                String::new()
            },
        };
        let rec_uri = match self.media.get(&media_id) {
            Some(rec) => rec.uri.clone(),
            None => String::new(),
        };
        if !rec_uri.as_str().is_empty() {
            return Ok(rec_uri);
        }
        if self.base_uri.as_str().is_empty() {
            return Ok(String::new());
        }
        Ok(self.base_uri.clone().concat(media_id.as_str()))
    }

    /// Records the completion of `media_id` by `user` and mints the next
    /// token for it: the sole mint path.  The token is entered in the
    /// ownership and media maps and the completion ledger, appended to the
    /// user's token list, and the user is appended to the media's completer
    /// list, where they then appear exactly once.
    pub fn record_completion(&mut self, user: Identity, media_id: &str) -> (r: Result<
        TokenId,
        Error,
    >)
        requires
            old(self).wf(),
        ensures
            final(self).wf(),
            match r {
                Ok(t) => {
                    &&& !old(self).completion_map().contains_key((user, media_id@))
                    &&& old(self).spec_next_token() < u64::MAX
                    &&& t == old(self).spec_next_token()
                    &&& final(self).spec_next_token() == t + 1
                    &&& final(self).completion_map() == old(self).completion_map().insert(
                        (user, media_id@),
                        t,
                    )
                    &&& final(self).token_owner_map() == old(self).token_owner_map().insert(
                        t,
                        user,
                    )
                    &&& final(self).token_media_map() == old(self).token_media_map().insert(
                        t,
                        media_id@,
                    )
                    &&& final(self).user_tokens_seq(user) == old(self).user_tokens_seq(
                        user,
                    ).push(t)
                    &&& (forall|u: Identity|
                        u != user ==> final(self).user_tokens_seq(u) == old(self).user_tokens_seq(
                            u,
                        ))
                    &&& final(self).completers_seq(media_id@) == old(self).completers_seq(
                        media_id@,
                    ).push(user)
                    &&& (forall|m: Seq<char>|
                        m != media_id@ ==> final(self).completers_seq(m) == old(
                            self,
                        ).completers_seq(m))
                    &&& (forall|m: Seq<char>| final(self).group_seq(m) == old(self).group_seq(m))
                    &&& same_admin(*old(self), *final(self))
                    &&& final(self).completers_seq(media_id@).to_multiset().count(user) == 1
                },
                Err(e) => {
                    &&& *final(self) == *old(self)
                    &&& (old(self).completion_map().contains_key((user, media_id@)) || old(
                        self,
                    ).spec_next_token() == u64::MAX)
                    &&& (e == Error::AlreadyCompleted <==> old(self).completion_map().contains_key(
                        (user, media_id@),
                    ))
                    &&& (e == Error::Overflow <==> (!old(self).completion_map().contains_key(
                        (user, media_id@),
                    ) && old(self).spec_next_token() == u64::MAX))
                },
            },
    {
        let media_key = String::from_str(media_id);
        let ckey = CompletionKey { user, media: String::from_str(media_id) };
        match self.completion.get(&ckey) {
            Some(_) => {
                return Err(Error::AlreadyCompleted);
            },
            None => {},
        }
        if self.next_token_id == u64::MAX {
            return Err(Error::Overflow);
        }
        let t = self.next_token_id;
        self.next_token_id = t + 1;
        self.token_owner.insert(t, user);
        self.token_media.insert(t, String::from_str(media_id));
        self.completion.insert(ckey, t);
        proof {
            assert(!old(self).user_tokens_seq(user).contains(t)) by {
                if old(self).user_tokens_seq(user).contains(t) {
                    assert(old(self).token_owner_map().contains_key(t));
                }
            }
            assert(!old(self).completers_seq(media_id@).contains(user));
        }
        self.user_tokens.add(&user, t);
        self.media_completers.add(&media_key, user);
        proof {
            State::lemma_mint_wf(*old(self), *self, user, media_id@, t);
        }
        Ok(t)
    }

    /// An operation that changes only group membership, and leaves no member
    /// without a completion, preserves the relational invariant.
    proof fn lemma_wf_frame_groups(pre: State, post: State)
        requires
            pre.wf(),
            post.stores_wf(),
            post.spec_next_token() == pre.spec_next_token(),
            post.token_owner_map() == pre.token_owner_map(),
            post.token_media_map() == pre.token_media_map(),
            post.completion_map() == pre.completion_map(),
            forall|u: Identity| post.user_tokens_seq(u) == pre.user_tokens_seq(u),
            forall|m: Seq<char>| post.completers_seq(m) == pre.completers_seq(m),
            forall|m: Seq<char>, u: Identity| #[trigger]
                post.group_seq(m).contains(u) ==> pre.completion_map().contains_key((u, m)),
        ensures
            post.wf(),
    {
        assert forall|t: TokenId| #[trigger]
            post.token_owner_map().contains_key(t) implies 1 <= t < post.spec_next_token()
            && post.token_media_map().contains_key(t) && {
            let u = post.token_owner_map()[t];
            let m = post.token_media_map()[t];
            &&& post.completion_map().contains_key((u, m))
            &&& post.completion_map()[(u, m)] == t
        } by {
            assert(pre.token_owner_map().contains_key(t));
        }
        assert forall|t: TokenId| #[trigger]
            post.token_media_map().contains_key(t) implies post.token_owner_map().contains_key(
            t,
        ) by {
            assert(pre.token_media_map().contains_key(t));
        }
        assert forall|u: Identity, m: Seq<char>| #[trigger]
            post.completion_map().contains_key((u, m)) implies {
            let t = post.completion_map()[(u, m)];
            &&& post.token_owner_map().contains_key(t)
            &&& post.token_owner_map()[t] == u
            &&& post.token_media_map()[t] == m
            &&& post.user_tokens_seq(u).contains(t)
            &&& post.completers_seq(m).contains(u)
        } by {
            assert(pre.completion_map().contains_key((u, m)));
            assert(post.user_tokens_seq(u) == pre.user_tokens_seq(u));
            assert(post.completers_seq(m) == pre.completers_seq(m));
        }
        assert forall|u: Identity, t: TokenId| #[trigger]
            post.user_tokens_seq(u).contains(t) implies post.token_owner_map().contains_key(t)
            && post.token_owner_map()[t] == u by {
            assert(post.user_tokens_seq(u) == pre.user_tokens_seq(u));
            assert(pre.user_tokens_seq(u).contains(t));
        }
        assert forall|m: Seq<char>, u: Identity| #[trigger]
            post.completers_seq(m).contains(u) implies post.completion_map().contains_key(
            (u, m),
        ) by {
            assert(post.completers_seq(m) == pre.completers_seq(m));
            assert(pre.completers_seq(m).contains(u));
        }
    }

    /// SelfOnly: the caller joins the media item's discussion group.
    /// Requires a prior completion; a repeat join is a no-op success.
    pub fn join_group(&mut self, caller: Identity, media_id: &str) -> (r: Result<(), Error>)
        requires
            old(self).wf(),
        ensures
            final(self).wf(),
            match r {
                Ok(()) => {
                    &&& old(self).completion_map().contains_key((caller, media_id@))
                    &&& final(self).group_seq(media_id@) == if old(self).group_seq(
                        media_id@,
                    ).contains(caller) {
                        old(self).group_seq(media_id@)
                    } else {
                        old(self).group_seq(media_id@).push(caller)
                    }
                    &&& final(self).group_seq(media_id@).contains(caller)
                    &&& (forall|m: Seq<char>|
                        m != media_id@ ==> final(self).group_seq(m) == old(self).group_seq(m))
                    &&& final(self).spec_next_token() == old(self).spec_next_token()
                    &&& final(self).token_owner_map() == old(self).token_owner_map()
                    &&& final(self).token_media_map() == old(self).token_media_map()
                    &&& final(self).completion_map() == old(self).completion_map()
                    &&& (forall|u: Identity|
                        final(self).user_tokens_seq(u) == old(self).user_tokens_seq(u))
                    &&& (forall|m: Seq<char>|
                        final(self).completers_seq(m) == old(self).completers_seq(m))
                    &&& same_admin(*old(self), *final(self))
                },
                Err(e) => {
                    &&& e == Error::NotCompleted
                    &&& !old(self).completion_map().contains_key((caller, media_id@))
                    &&& *final(self) == *old(self)
                },
            },
    {
        let completed = self.has_completed(caller, media_id);
        if !completed {
            return Err(Error::NotCompleted);
        }
        self.group_members.add(&String::from_str(media_id), caller);
        proof {
            assert forall|m2: Seq<char>, u2: Identity| #[trigger]
                self.group_seq(m2).contains(u2) implies old(self).completion_map().contains_key(
                (u2, m2),
            ) by {
                if m2 == media_id@ && !old(self).group_seq(media_id@).contains(caller) {
                    let s = old(self).group_seq(media_id@);
                    let j = choose|j: int|
                        0 <= j < self.group_seq(m2).len() && self.group_seq(m2)[j] == u2;
                    if j < s.len() {
                        assert(s[j] == u2);
                        assert(s.contains(u2));
                    } else {
                        assert(u2 == caller);
                    }
                } else {
                    assert(self.group_seq(m2) == old(self).group_seq(m2));
                    assert(old(self).group_seq(m2).contains(u2));
                }
            }
            State::lemma_wf_frame_groups(*old(self), *self);
        }
        Ok(())
    }

    /// SelfOnly: the caller leaves the media item's discussion group.  Not a
    /// member exactly when the caller is not currently in the group.
    pub fn leave_group(&mut self, caller: Identity, media_id: &str) -> (r: Result<(), Error>)
        requires
            old(self).wf(),
        ensures
            final(self).wf(),
            match r {
                Ok(()) => {
                    &&& old(self).group_seq(media_id@).contains(caller)
                    &&& final(self).group_seq(media_id@) == crate::indexed_set::swap_remove_seq(
                        old(self).group_seq(media_id@),
                        old(self).group_index1(media_id@, caller) - 1,
                    )
                    &&& !final(self).group_seq(media_id@).contains(caller)
                    &&& final(self).group_seq(media_id@).len() == old(self).group_seq(
                        media_id@,
                    ).len() - 1
                    &&& (forall|x: Identity|
                        x != caller ==> final(self).group_seq(media_id@).contains(x) == old(
                            self,
                        ).group_seq(media_id@).contains(x))
                    &&& (forall|m: Seq<char>|
                        m != media_id@ ==> final(self).group_seq(m) == old(self).group_seq(m))
                    &&& final(self).spec_next_token() == old(self).spec_next_token()
                    &&& final(self).token_owner_map() == old(self).token_owner_map()
                    &&& final(self).token_media_map() == old(self).token_media_map()
                    &&& final(self).completion_map() == old(self).completion_map()
                    &&& (forall|u: Identity|
                        final(self).user_tokens_seq(u) == old(self).user_tokens_seq(u))
                    &&& (forall|m: Seq<char>|
                        final(self).completers_seq(m) == old(self).completers_seq(m))
                    &&& same_admin(*old(self), *final(self))
                },
                Err(e) => {
                    &&& e == Error::NotMember
                    &&& !old(self).group_seq(media_id@).contains(caller)
                    &&& *final(self) == *old(self)
                },
            },
    {
        let key = String::from_str(media_id);
        if !self.group_members.contains(&key, caller) {
            return Err(Error::NotMember);
        }
        self.group_members.remove(&key, caller);
        proof {
            assert forall|m2: Seq<char>, u2: Identity| #[trigger]
                self.group_seq(m2).contains(u2) implies old(self).completion_map().contains_key(
                (u2, m2),
            ) by {
                if m2 == media_id@ {
                    assert(self.group_members.spec_contains(m2, u2));
                    assert(!self.group_members.spec_contains(media_id@, caller));
                    assert(u2 != caller);
                    assert(old(self).group_members.spec_contains(media_id@, u2));
                    assert(old(self).group_seq(m2).contains(u2));
                } else {
                    assert(self.group_seq(m2) == old(self).group_seq(m2));
                    assert(old(self).group_seq(m2).contains(u2));
                }
            }
            State::lemma_wf_frame_groups(*old(self), *self);
            assert(old(self).group_members.spec_contains(media_id@, caller));
            old(self).group_members.lemma_index1(media_id@, caller);
            assert forall|x: Identity| x != caller implies self.group_seq(media_id@).contains(x)
                == old(self).group_seq(media_id@).contains(x) by {
                assert(self.group_members.spec_contains(media_id@, x) == old(
                    self,
                ).group_members.spec_contains(media_id@, x));
            }
        }
        Ok(())
    }

    /// Burns a token: the full reverse closure of minting.  Only the
    /// token's owner may burn it.  The token leaves the ownership and media
    /// maps and the completion ledger, the owner's token list drops it, and
    /// the owner leaves the media's completer list and its group (the group
    /// removal being a no-op when the owner never joined).  The counter is
    /// untouched: burned identifiers are never reissued.
    pub fn burn(&mut self, caller: Identity, token_id: TokenId) -> (r: Result<(), Error>)
        requires
            old(self).wf(),
        ensures
            final(self).wf(),
            match r {
                Ok(()) => {
                    let m = old(self).token_media_map()[token_id];
                    &&& old(self).token_owner_map().contains_key(token_id)
                    &&& old(self).token_owner_map()[token_id] == caller
                    &&& final(self).token_owner_map() == old(self).token_owner_map().remove(
                        token_id,
                    )
                    &&& final(self).token_media_map() == old(self).token_media_map().remove(
                        token_id,
                    )
                    &&& final(self).completion_map() == old(self).completion_map().remove(
                        (caller, m),
                    )
                    &&& final(self).user_tokens_seq(caller) == crate::indexed_set::swap_remove_seq(
                        old(self).user_tokens_seq(caller),
                        old(self).user_token_index1(caller, token_id) - 1,
                    )
                    &&& !final(self).user_tokens_seq(caller).contains(token_id)
                    &&& (forall|x: TokenId|
                        x != token_id ==> final(self).user_tokens_seq(caller).contains(x) == old(
                            self,
                        ).user_tokens_seq(caller).contains(x))
                    &&& (forall|u: Identity|
                        u != caller ==> final(self).user_tokens_seq(u) == old(self).user_tokens_seq(
                            u,
                        ))
                    &&& final(self).completers_seq(m) == crate::indexed_set::swap_remove_seq(
                        old(self).completers_seq(m),
                        old(self).completer_index1(m, caller) - 1,
                    )
                    &&& !final(self).completers_seq(m).contains(caller)
                    &&& (forall|x: Identity|
                        x != caller ==> final(self).completers_seq(m).contains(x) == old(
                            self,
                        ).completers_seq(m).contains(x))
                    &&& (forall|m2: Seq<char>|
                        m2 != m ==> final(self).completers_seq(m2) == old(self).completers_seq(m2))
                    &&& final(self).group_seq(m) == if old(self).group_seq(m).contains(caller) {
                        crate::indexed_set::swap_remove_seq(
                            old(self).group_seq(m),
                            old(self).group_index1(m, caller) - 1,
                        )
                    } else {
                        old(self).group_seq(m)
                    }
                    &&& !final(self).group_seq(m).contains(caller)
                    &&& (forall|x: Identity|
                        x != caller ==> final(self).group_seq(m).contains(x) == old(
                            self,
                        ).group_seq(m).contains(x))
                    &&& (forall|m2: Seq<char>|
                        m2 != m ==> final(self).group_seq(m2) == old(self).group_seq(m2))
                    &&& final(self).spec_next_token() == old(self).spec_next_token()
                    &&& same_admin(*old(self), *final(self))
                },
                Err(e) => {
                    &&& e == Error::NotOwner
                    &&& !(old(self).token_owner_map().contains_key(token_id) && old(
                        self,
                    ).token_owner_map()[token_id] == caller)
                    &&& *final(self) == *old(self)
                },
            },
    {
        let owner_ok = match self.token_owner.get(&token_id) {
            Some(o) => *o == caller,
            None => false,
        };
        if !owner_ok {
            return Err(Error::NotOwner);
        }
        let media = match self.token_media.get(&token_id) {
            Some(s) => s.clone(),
            None => {
                proof {
                    assert(self.token_owner_map().contains_key(token_id));
                    assert(self.token_media_map().contains_key(token_id));
                }
                String::new()
            },
        };
        proof {
            assert(old(self).token_owner_map().contains_key(token_id));
            assert(old(self).completion_map().contains_key((caller, media@)));
            assert(old(self).completion_map()[(caller, media@)] == token_id);
            assert(old(self).user_tokens_seq(caller).contains(token_id));
            assert(old(self).completers_seq(media@).contains(caller));
        }
        self.token_owner.remove(&token_id);
        self.token_media.remove(&token_id);
        self.completion.remove(&CompletionKey { user: caller, media: media.clone() });
        self.user_tokens.remove(&caller, token_id);
        self.media_completers.remove(&media, caller);
        self.group_members.remove(&media, caller);
        proof {
            assert forall|x: TokenId| x != token_id implies self.user_tokens_seq(
                caller,
            ).contains(x) == old(self).user_tokens_seq(caller).contains(x) by {
                assert(self.user_tokens.spec_contains(caller, x) == old(
                    self,
                ).user_tokens.spec_contains(caller, x));
            }
            assert forall|x: Identity| x != caller implies self.completers_seq(media@).contains(x)
                == old(self).completers_seq(media@).contains(x) by {
                assert(self.media_completers.spec_contains(media@, x) == old(
                    self,
                ).media_completers.spec_contains(media@, x));
            }
            assert forall|x: Identity| x != caller implies self.group_seq(media@).contains(x)
                == old(self).group_seq(media@).contains(x) by {
                assert(self.group_members.spec_contains(media@, x) == old(
                    self,
                ).group_members.spec_contains(media@, x));
            }
            State::lemma_burn_wf(*old(self), *self, caller, token_id, media@);
        }
        Ok(())
    }

    /// Removing a completion together with its token and every mirror of it
    /// preserves the relational invariant.
    proof fn lemma_burn_wf(pre: State, post: State, caller: Identity, t: TokenId, m: Seq<char>)
        requires
            pre.wf(),
            pre.token_owner_map().contains_key(t),
            pre.token_owner_map()[t] == caller,
            pre.token_media_map()[t] == m,
            post.stores_wf(),
            post.spec_next_token() == pre.spec_next_token(),
            post.token_owner_map() == pre.token_owner_map().remove(t),
            post.token_media_map() == pre.token_media_map().remove(t),
            post.completion_map() == pre.completion_map().remove((caller, m)),
            !post.user_tokens_seq(caller).contains(t),
            forall|x: TokenId|
                x != t ==> post.user_tokens_seq(caller).contains(x) == pre.user_tokens_seq(
                    caller,
                ).contains(x),
            forall|u: Identity| u != caller ==> post.user_tokens_seq(u) == pre.user_tokens_seq(u),
            !post.completers_seq(m).contains(caller),
            forall|x: Identity|
                x != caller ==> post.completers_seq(m).contains(x) == pre.completers_seq(
                    m,
                ).contains(x),
            forall|m2: Seq<char>| m2 != m ==> post.completers_seq(m2) == pre.completers_seq(m2),
            !post.group_seq(m).contains(caller),
            forall|x: Identity|
                x != caller ==> post.group_seq(m).contains(x) == pre.group_seq(m).contains(x),
            forall|m2: Seq<char>| m2 != m ==> post.group_seq(m2) == pre.group_seq(m2),
        ensures
            post.wf(),
    {
        assert forall|t2: TokenId| #[trigger]
            post.token_owner_map().contains_key(t2) implies 1 <= t2 < post.spec_next_token()
            && post.token_media_map().contains_key(t2) by {
            assert(pre.token_owner_map().contains_key(t2));
        }
        assert forall|t2: TokenId| #[trigger]
            post.token_media_map().contains_key(t2) implies post.token_owner_map().contains_key(
            t2,
        ) by {
            assert(pre.token_media_map().contains_key(t2));
        }
        assert forall|u2: Identity, m2: Seq<char>| #[trigger]
            post.completion_map().contains_key((u2, m2)) implies {
            let t2 = post.completion_map()[(u2, m2)];
            &&& post.token_owner_map().contains_key(t2)
            &&& post.token_owner_map()[t2] == u2
            &&& post.token_media_map()[t2] == m2
            &&& post.user_tokens_seq(u2).contains(t2)
            &&& post.completers_seq(m2).contains(u2)
        } by {
            assert((u2, m2) != (caller, m));
            assert(pre.completion_map().contains_key((u2, m2)));
            let t2 = pre.completion_map()[(u2, m2)];
            assert(pre.token_owner_map().contains_key(t2));
            assert(t2 != t) by {
                if t2 == t {
                    assert(pre.completion_map()[(caller, m)] == t);
                }
            }
            assert(pre.user_tokens_seq(u2).contains(t2));
            if u2 == caller {
                assert(post.user_tokens_seq(caller).contains(t2));
            } else {
                assert(post.user_tokens_seq(u2) == pre.user_tokens_seq(u2));
            }
            assert(pre.completers_seq(m2).contains(u2));
            if m2 == m {
                assert(u2 != caller);
                assert(post.completers_seq(m).contains(u2));
            } else {
                assert(post.completers_seq(m2) == pre.completers_seq(m2));
            }
        }
        assert forall|t2: TokenId| #[trigger]
            post.token_owner_map().contains_key(t2) implies {
            let u2 = post.token_owner_map()[t2];
            let m2 = post.token_media_map()[t2];
            &&& post.completion_map().contains_key((u2, m2))
            &&& post.completion_map()[(u2, m2)] == t2
        } by {
            assert(pre.token_owner_map().contains_key(t2));
            let u2 = pre.token_owner_map()[t2];
            let m2 = pre.token_media_map()[t2];
            assert(pre.completion_map().contains_key((u2, m2)));
            assert((u2, m2) != (caller, m)) by {
                if (u2, m2) == (caller, m) {
                    assert(pre.completion_map()[(caller, m)] == t2);
                    assert(pre.completion_map()[(caller, m)] == t) by {
                        assert(pre.token_owner_map().contains_key(t));
                    }
                }
            }
        }
        assert forall|u2: Identity, t2: TokenId| #[trigger]
            post.user_tokens_seq(u2).contains(t2) implies post.token_owner_map().contains_key(t2)
            && post.token_owner_map()[t2] == u2 by {
            if u2 == caller {
                assert(t2 != t);
                assert(pre.user_tokens_seq(caller).contains(t2));
            } else {
                assert(post.user_tokens_seq(u2) == pre.user_tokens_seq(u2));
                assert(pre.user_tokens_seq(u2).contains(t2));
                assert(t2 != t) by {
                    if t2 == t {
                        assert(pre.token_owner_map()[t] == u2);
                    }
                }
            }
        }
        assert forall|m2: Seq<char>, u2: Identity| #[trigger]
            post.completers_seq(m2).contains(u2) implies post.completion_map().contains_key(
            (u2, m2),
        ) by {
            if m2 == m {
                assert(u2 != caller);
                assert(pre.completers_seq(m).contains(u2));
            } else {
                assert(post.completers_seq(m2) == pre.completers_seq(m2));
                assert(pre.completers_seq(m2).contains(u2));
            }
            assert(pre.completion_map().contains_key((u2, m2)));
            assert((u2, m2) != (caller, m));
        }
        assert forall|m2: Seq<char>, u2: Identity| #[trigger]
            post.group_seq(m2).contains(u2) implies post.completion_map().contains_key(
            (u2, m2),
        ) by {
            if m2 == m {
                assert(u2 != caller);
                assert(pre.group_seq(m).contains(u2));
            } else {
                assert(post.group_seq(m2) == pre.group_seq(m2));
                assert(pre.group_seq(m2).contains(u2));
            }
            assert(pre.completion_map().contains_key((u2, m2)));
            assert((u2, m2) != (caller, m));
        }
    }

    /// Entering a fresh completion with its token preserves the relational
    /// invariant, and the new completer appears exactly once.
    proof fn lemma_mint_wf(pre: State, post: State, user: Identity, m: Seq<char>, t: TokenId)
        requires
            pre.wf(),
            !pre.completion_map().contains_key((user, m)),
            t == pre.spec_next_token(),
            t < u64::MAX,
            post.stores_wf(),
            post.spec_next_token() == t + 1,
            post.token_owner_map() == pre.token_owner_map().insert(t, user),
            post.token_media_map() == pre.token_media_map().insert(t, m),
            post.completion_map() == pre.completion_map().insert((user, m), t),
            post.user_tokens_seq(user) == pre.user_tokens_seq(user).push(t),
            forall|u: Identity|
                u != user ==> post.user_tokens_seq(u) == pre.user_tokens_seq(u),
            post.completers_seq(m) == pre.completers_seq(m).push(user),
            forall|m2: Seq<char>| m2 != m ==> post.completers_seq(m2) == pre.completers_seq(m2),
            forall|m2: Seq<char>| post.group_seq(m2) == pre.group_seq(m2),
        ensures
            post.wf(),
            post.completers_seq(m).to_multiset().count(user) == 1,
    {
        assert forall|t2: TokenId| #[trigger]
            post.token_owner_map().contains_key(t2) implies 1 <= t2 < post.spec_next_token()
            && post.token_media_map().contains_key(t2) by {
            if t2 != t {
                assert(pre.token_owner_map().contains_key(t2));
            }
        }
        assert forall|t2: TokenId| #[trigger]
            post.token_media_map().contains_key(t2) implies post.token_owner_map().contains_key(
            t2,
        ) by {
            if t2 != t {
                assert(pre.token_media_map().contains_key(t2));
            }
        }
        assert forall|u2: Identity, m2: Seq<char>| #[trigger]
            post.completion_map().contains_key((u2, m2)) implies {
            let t2 = post.completion_map()[(u2, m2)];
            &&& post.token_owner_map().contains_key(t2)
            &&& post.token_owner_map()[t2] == u2
            &&& post.token_media_map()[t2] == m2
            &&& post.user_tokens_seq(u2).contains(t2)
            &&& post.completers_seq(m2).contains(u2)
        } by {
            if u2 == user && m2 == m {
                assert(post.user_tokens_seq(user)[post.user_tokens_seq(user).len() - 1] == t);
                assert(post.completers_seq(m)[post.completers_seq(m).len() - 1] == user);
            } else {
                assert(pre.completion_map().contains_key((u2, m2)));
                let t2 = pre.completion_map()[(u2, m2)];
                assert(pre.token_owner_map().contains_key(t2));
                assert(t2 != t);
                if u2 == user {
                    assert(pre.user_tokens_seq(user).contains(t2));
                    let j = choose|j: int|
                        0 <= j < pre.user_tokens_seq(user).len() && pre.user_tokens_seq(user)[j]
                            == t2;
                    assert(post.user_tokens_seq(user)[j] == t2);
                } else {
                    assert(post.user_tokens_seq(u2) == pre.user_tokens_seq(u2));
                }
                if m2 == m {
                    assert(pre.completers_seq(m).contains(u2));
                    let j = choose|j: int|
                        0 <= j < pre.completers_seq(m).len() && pre.completers_seq(m)[j] == u2;
                    assert(post.completers_seq(m)[j] == u2);
                } else {
                    assert(post.completers_seq(m2) == pre.completers_seq(m2));
                }
            }
        }
        assert forall|t2: TokenId| #[trigger]
            post.token_owner_map().contains_key(t2) implies {
            let u2 = post.token_owner_map()[t2];
            let m2 = post.token_media_map()[t2];
            &&& post.completion_map().contains_key((u2, m2))
            &&& post.completion_map()[(u2, m2)] == t2
        } by {
            if t2 != t {
                assert(pre.token_owner_map().contains_key(t2));
                let u2 = pre.token_owner_map()[t2];
                let m2 = pre.token_media_map()[t2];
                assert(pre.completion_map().contains_key((u2, m2)));
                assert((u2, m2) != (user, m));
            }
        }
        assert forall|u2: Identity, t2: TokenId| #[trigger]
            post.user_tokens_seq(u2).contains(t2) implies post.token_owner_map().contains_key(t2)
            && post.token_owner_map()[t2] == u2 by {
            if u2 == user {
                let s = pre.user_tokens_seq(user);
                let j = choose|j: int|
                    0 <= j < post.user_tokens_seq(user).len() && post.user_tokens_seq(user)[j]
                        == t2;
                if j < s.len() {
                    assert(s[j] == t2);
                    assert(s.contains(t2));
                    assert(pre.token_owner_map().contains_key(t2));
                    assert(t2 != t);
                } else {
                    assert(t2 == t);
                }
            } else {
                assert(post.user_tokens_seq(u2) == pre.user_tokens_seq(u2));
                assert(pre.user_tokens_seq(u2).contains(t2));
                assert(pre.token_owner_map().contains_key(t2));
                assert(t2 != t);
            }
        }
        assert forall|m2: Seq<char>, u2: Identity| #[trigger]
            post.completers_seq(m2).contains(u2) implies post.completion_map().contains_key(
            (u2, m2),
        ) by {
            if m2 == m {
                let s = pre.completers_seq(m);
                let j = choose|j: int|
                    0 <= j < post.completers_seq(m).len() && post.completers_seq(m)[j] == u2;
                if j < s.len() {
                    assert(s[j] == u2);
                    assert(s.contains(u2));
                    assert(pre.completion_map().contains_key((u2, m)));
                    assert((u2, m2) != (user, m));
                } else {
                    assert(u2 == user);
                }
            } else {
                assert(post.completers_seq(m2) == pre.completers_seq(m2));
                assert(pre.completers_seq(m2).contains(u2));
                assert((u2, m2) != (user, m));
            }
        }
        assert forall|m2: Seq<char>, u2: Identity| #[trigger]
            post.group_seq(m2).contains(u2) implies post.completion_map().contains_key(
            (u2, m2),
        ) by {
            assert(post.group_seq(m2) == pre.group_seq(m2));
            assert(pre.group_seq(m2).contains(u2));
            assert(pre.completion_map().contains_key((u2, m2)));
            assert((u2, m2) != (user, m));
        }
        // the new completer appears exactly once
        assert(!pre.completers_seq(m).contains(user));
        pre.media_completers.lemma_enumerates(m);
        let s2 = post.completers_seq(m);
        assert forall|j: int, k: int|
            0 <= j < s2.len() && 0 <= k < s2.len() && j != k implies s2[j] != s2[k] by {
            let s = pre.completers_seq(m);
            if j < s.len() && k < s.len() {
                assert(s2[j] == s[j] && s2[k] == s[k]);
            } else if j < s.len() {
                assert(s2[k] == user && s2[j] == s[j]);
                assert(s.contains(s[j]));
            } else if k < s.len() {
                assert(s2[j] == user && s2[k] == s[k]);
                assert(s.contains(s[k]));
            }
        }
        assert(s2.no_duplicates());
        s2.lemma_multiset_has_no_duplicates();
        s2.to_multiset_ensures();
        assert(s2[s2.len() - 1] == user);
        assert(s2.contains(user));
        assert(s2.to_multiset().count(user) > 0);
        assert(s2.to_multiset().contains(user));
    }

    /// BackendOnly: registers the media item derived from (kind, uri, name)
    /// if it is not yet registered, then records its completion by `to` and
    /// mints the token.  The media identifier is the deterministic content
    /// hash of the triple, so a client can precompute it.  Validation comes
    /// first: a rejected call changes nothing.
    pub fn complete_and_register_by_external_id(
        &mut self,
        caller: Identity,
        to: Identity,
        kind: u8,
        uri: &str,
        name: &str,
    ) -> (r: Result<TokenId, Error>)
        requires
            old(self).wf(),
        ensures
            final(self).wf(),
            ({
                let id = crate::media_id::media_id_chars(kind, uri.spec_bytes(), name.spec_bytes());
                match r {
                    Ok(t) => {
                        &&& caller == old(self).spec_backend()
                        &&& !old(self).completion_map().contains_key((to, id))
                        &&& old(self).spec_next_token() < u64::MAX
                        &&& t == old(self).spec_next_token()
                        &&& final(self).spec_next_token() == t + 1
                        &&& final(self).media_map() == if old(self).media_map().contains_key(id)
                            && old(self).media_map()[id].registered {
                            old(self).media_map()
                        } else {
                            old(self).media_map().insert(
                                id,
                                (MediaView { kind: kind, registered: true, uri: uri@, name: name@ }),
                            )
                        }
                        &&& final(self).completion_map() == old(self).completion_map().insert(
                            (to, id),
                            t,
                        )
                        &&& final(self).token_owner_map() == old(self).token_owner_map().insert(
                            t,
                            to,
                        )
                        &&& final(self).token_media_map() == old(self).token_media_map().insert(
                            t,
                            id,
                        )
                        &&& final(self).user_tokens_seq(to) == old(self).user_tokens_seq(to).push(
                            t,
                        )
                        &&& (forall|u: Identity|
                            u != to ==> final(self).user_tokens_seq(u) == old(
                                self,
                            ).user_tokens_seq(u))
                        &&& final(self).completers_seq(id) == old(self).completers_seq(id).push(to)
                        &&& (forall|m: Seq<char>|
                            m != id ==> final(self).completers_seq(m) == old(self).completers_seq(
                                m,
                            ))
                        &&& (forall|m: Seq<char>|
                            final(self).group_seq(m) == old(self).group_seq(m))
                        &&& final(self).spec_owner() == old(self).spec_owner()
                        &&& final(self).spec_backend() == old(self).spec_backend()
                        &&& final(self).registrar_map() == old(self).registrar_map()
                        &&& final(self).spec_base_uri() == old(self).spec_base_uri()
                    },
                    Err(e) => {
                        &&& *final(self) == *old(self)
                        &&& (caller != old(self).spec_backend() || old(
                            self,
                        ).completion_map().contains_key((to, id)) || old(self).spec_next_token()
                            == u64::MAX)
                        &&& (e == Error::Unauthorized <==> caller != old(self).spec_backend())
                        &&& (e == Error::AlreadyCompleted <==> (caller == old(self).spec_backend()
                            && old(self).completion_map().contains_key((to, id))))
                        &&& (e == Error::Overflow <==> (caller == old(self).spec_backend() && !old(
                            self,
                        ).completion_map().contains_key((to, id)) && old(self).spec_next_token()
                            == u64::MAX))
                    },
                }
            }),
    {
        if caller != self.backend {
            return Err(Error::Unauthorized);
        }
        let id = crate::media_id::compute_media_id(kind, uri, name);
        let ckey = CompletionKey { user: to, media: id.clone() };
        match self.completion.get(&ckey) {
            Some(_) => {
                return Err(Error::AlreadyCompleted);
            },
            None => {},
        }
        if self.next_token_id == u64::MAX {
            return Err(Error::Overflow);
        }
        let already_registered = match self.media.get(&id) {
            Some(rec) => rec.registered,
            None => false,
        };
        if !already_registered {
            self.media.insert(
                id.clone(),
                MediaRecord {
                    kind,
                    registered: true,
                    uri: String::from_str(uri),
                    name: String::from_str(name),
                },
            );
            proof {
                State::lemma_wf_frame(*old(self), *self);
            }
        }
        let minted = self.record_completion(to, id.as_str());
        match minted {
            Ok(t) => Ok(t),
            Err(_) => {
                proof {
                    assert(false);
                }
                Err(Error::Overflow)
            },
        }
    }

    /// Every token in the list exists and belongs to `owner`.
    pub open spec fn all_owned_by(&self, tokens: Seq<TokenId>, owner: Identity) -> bool {
        forall|i: int|
            0 <= i < tokens.len() ==> self.token_owner_map().contains_key(#[trigger] tokens[i])
                && self.token_owner_map()[tokens[i]] == owner
    }

    /// `x` is a completer, other than `owner`, of the media of at least one
    /// of the listed tokens.
    pub open spec fn is_similar(&self, tokens: Seq<TokenId>, owner: Identity, x: Identity) -> bool {
        x != owner && exists|i: int|
            0 <= i < tokens.len() && self.completers_seq(
                self.token_media_map()[#[trigger] tokens[i]],
            ).contains(x)
    }

    /// The other completers of a token's media item, in completer-list
    /// order: every completer of that media except the token's owner.  Not
    /// found exactly when the token is unknown.
    pub fn get_similars_for_token(&self, token_id: TokenId) -> (r: Result<Vec<Identity>, Error>)
        requires
            self.wf(),
        ensures
            match r {
                Ok(v) => self.token_owner_map().contains_key(token_id) && {
                    let owner = self.token_owner_map()[token_id];
                    v@ == self.completers_seq(self.token_media_map()[token_id]).filter(
                        |x: Identity| x != owner,
                    )
                },
                Err(e) => e == Error::NotFound && !self.token_owner_map().contains_key(token_id),
            },
    {
        let owner = match self.token_owner.get(&token_id) {
            Some(o) => *o,
            None => {
                return Err(Error::NotFound);
            },
        };
        let media = match self.token_media.get(&token_id) {
            Some(s) => s.clone(),
            None => {
                proof {
                    assert(self.token_owner_map().contains_key(token_id));
                    assert(self.token_media_map().contains_key(token_id));
                }
                String::new()
            },
        };
        let completers = self.media_completers.members_vec(&media);
        let mut out: Vec<Identity> = Vec::new();
        let n = completers.len();
        let mut i: usize = 0;
        proof {
            reveal(Seq::filter);
            assert(out@ =~= completers@.take(0).filter(|x: Identity| x != owner));
        }
        while i < n
            invariant
                n == completers@.len(),
                0 <= i <= n,
                out@ == completers@.take(i as int).filter(|x: Identity| x != owner),
            decreases n - i,
        {
            let c = completers[i];
            proof {
                lemma_filter_take_step(completers@, i as int, |x: Identity| x != owner);
            }
            if c != owner {
                out.push(c);
            }
            i = i + 1;
        }
        proof {
            assert(completers@.take(n as int) =~= completers@);
        }
        Ok(out)
    }

    /// The union, de-duplicated and in increasing order, of the other
    /// completers across the media of all listed tokens: a cross-media
    /// recommendation set for the tokens' single owner.  An empty list gives
    /// an empty result; the first token must exist, and every further token
    /// must belong to the first token's owner.
    pub fn get_similars_from_tokens(&self, token_ids: &Vec<TokenId>) -> (r: Result<
        Vec<Identity>,
        Error,
    >)
        requires
            self.wf(),
        ensures
            match r {
                Ok(v) => {
                    &&& (token_ids@.len() == 0 ==> v@ == Seq::<Identity>::empty())
                    &&& (token_ids@.len() > 0 ==> {
                        let owner = self.token_owner_map()[token_ids@[0]];
                        &&& self.token_owner_map().contains_key(token_ids@[0])
                        &&& self.all_owned_by(token_ids@, owner)
                        &&& sorted_strict(v@)
                        &&& (forall|x: Identity| #[trigger]
                            v@.contains(x) <==> self.is_similar(token_ids@, owner, x))
                    })
                },
                Err(e) => {
                    &&& token_ids@.len() > 0
                    &&& (!self.token_owner_map().contains_key(token_ids@[0])
                        || !self.all_owned_by(
                        token_ids@,
                        self.token_owner_map()[token_ids@[0]],
                    ))
                    &&& (e == Error::NotFound <==> (token_ids@.len() > 0
                        && !self.token_owner_map().contains_key(token_ids@[0])))
                    &&& (e == Error::NotOwner <==> (token_ids@.len() > 0
                        && self.token_owner_map().contains_key(token_ids@[0])
                        && !self.all_owned_by(
                        token_ids@,
                        self.token_owner_map()[token_ids@[0]],
                    )))
                },
            },
    {
        if token_ids.len() == 0 {
            return Ok(Vec::new());
        }
        let first = token_ids[0];
        let owner = match self.token_owner.get(&first) {
            Some(o) => *o,
            None => {
                return Err(Error::NotFound);
            },
        };
        let n = token_ids.len();
        let mut i: usize = 0;
        while i < n
            invariant
                self.wf(),
                n == token_ids@.len(),
                0 < n,
                0 <= i <= n,
                self.token_owner_map().contains_key(token_ids@[0]),
                owner == self.token_owner_map()[token_ids@[0]],
                forall|j: int|
                    0 <= j < i ==> self.token_owner_map().contains_key(#[trigger] token_ids@[j])
                        && self.token_owner_map()[token_ids@[j]] == owner,
            decreases n - i,
        {
            let t = token_ids[i];
            let owned = match self.token_owner.get(&t) {
                Some(o) => *o == owner,
                None => false,
            };
            if !owned {
                return Err(Error::NotOwner);
            }
            i = i + 1;
        }
        let mut out: Vec<Identity> = Vec::new();
        let mut i: usize = 0;
        while i < n
            invariant
                self.wf(),
                n == token_ids@.len(),
                0 < n,
                0 <= i <= n,
                self.token_owner_map().contains_key(token_ids@[0]),
                owner == self.token_owner_map()[token_ids@[0]],
                self.all_owned_by(token_ids@, owner),
                sorted_strict(out@),
                forall|x: Identity| #[trigger]
                    out@.contains(x) <==> self.is_similar(token_ids@.take(i as int), owner, x),
            decreases n - i,
        {
            let t = token_ids[i];
            let media = match self.token_media.get(&t) {
                Some(s) => s.clone(),
                None => {
                    proof {
                        assert(self.token_owner_map().contains_key(token_ids@[i as int]));
                        assert(self.token_media_map().contains_key(t));
                    }
                    String::new()
                },
            };
            let completers = self.media_completers.members_vec(&media);
            let cn = completers.len();
            let mut k: usize = 0;
            while k < cn
                invariant
                    cn == completers@.len(),
                    0 <= k <= cn,
                    sorted_strict(out@),
                    forall|x: Identity| #[trigger]
                        out@.contains(x) <==> (self.is_similar(
                            token_ids@.take(i as int),
                            owner,
                            x,
                        ) || (x != owner && completers@.take(k as int).contains(x))),
                decreases cn - k,
            {
                let c = completers[k];
                if c != owner {
                    insert_sorted(&mut out, c);
                }
                proof {
                    let prev = completers@.take(k as int);
                    let next = completers@.take(k as int + 1);
                    assert forall|x: Identity| #[trigger]
                        next.contains(x) implies (prev.contains(x) || x == c) by {
                        let l = choose|l: int| 0 <= l < next.len() && next[l] == x;
                        if l < k as int {
                            assert(prev[l] == x);
                        }
                    }
                    assert forall|x: Identity| (prev.contains(x) || x == c) implies #[trigger]
                        next.contains(x) by {
                        if x == c {
                            assert(next[k as int] == c);
                        } else {
                            let l = choose|l: int| 0 <= l < prev.len() && prev[l] == x;
                            assert(next[l] == x);
                        }
                    }
                }
                k = k + 1;
            }
            proof {
                assert(completers@.take(cn as int) =~= completers@);
                assert(media@ == self.token_media_map()[token_ids@[i as int]]);
                assert(completers@ == self.completers_seq(media@));
                let pre = token_ids@.take(i as int);
                let cur = token_ids@.take(i as int + 1);
                assert(cur.drop_last() =~= pre);
                assert(cur[i as int] == token_ids@[i as int]);
                assert forall|x: Identity| #[trigger]
                    self.is_similar(cur, owner, x) implies (self.is_similar(pre, owner, x) || (x
                    != owner && completers@.contains(x))) by {
                    let j = choose|j: int|
                        0 <= j < cur.len() && self.completers_seq(
                            self.token_media_map()[cur[j]],
                        ).contains(x);
                    if j < i as int {
                        assert(pre[j] == cur[j]);
                        assert(self.completers_seq(self.token_media_map()[pre[j]]).contains(x));
                    } else {
                        assert(cur[j] == token_ids@[i as int]);
                    }
                }
                assert forall|x: Identity|
                    (self.is_similar(pre, owner, x) || (x != owner
                        && completers@.contains(x))) implies #[trigger] self.is_similar(
                    cur,
                    owner,
                    x,
                ) by {
                    if self.is_similar(pre, owner, x) {
                        let j = choose|j: int|
                            0 <= j < pre.len() && self.completers_seq(
                                self.token_media_map()[pre[j]],
                            ).contains(x);
                        assert(cur[j] == pre[j]);
                        assert(self.completers_seq(self.token_media_map()[cur[j]]).contains(x));
                    } else {
                        assert(self.completers_seq(
                            self.token_media_map()[cur[i as int]],
                        ).contains(x));
                    }
                }
            }
            i = i + 1;
        }
        proof {
            assert(token_ids@.take(n as int) =~= token_ids@);
        }
        Ok(out)
    }

    /// The catalog entry of a media item: its `registered` flag (false when
    /// the record is absent), kind code, uri and display name.
    pub fn media_info(&self, media_id: &str) -> (r: (bool, u8, (String, String)))
        requires
            self.wf(),
        ensures
            self.media_map().contains_key(media_id@) ==> {
                let rec = self.media_map()[media_id@];
                &&& r.0 == rec.registered
                &&& r.1 == rec.kind
                &&& r.2.0@ == rec.uri
                &&& r.2.1@ == rec.name
            },
            !self.media_map().contains_key(media_id@) ==> {
                &&& r.0 == false
                &&& r.1 == 0
                &&& r.2.0@ == Seq::<char>::empty()
                &&& r.2.1@ == Seq::<char>::empty()
            },
    {
        match self.media.get(&String::from_str(media_id)) {
            Some(rec) => (rec.registered, rec.kind, (rec.uri.clone(), rec.name.clone())),
            None => (false, 0, (String::new(), String::new())),
        }
    }
}

} // verus!
