//! The channel directory: the ordered, duplicate-free set of channel names,
//! each with its chat log store.  The root channel `general` is always
//! present and cannot be removed.

use vstd::prelude::*;
use vstd::string::StringExecFns;
use crate::errors::ChannelError;
use crate::message::ChatMessage;
use crate::names::name_views;
use crate::names::normalize_channel_name;
use crate::names::normalized_name;
use crate::names::str_eq;
use crate::names::valid_name;
use crate::names::views_without;
use crate::names::lemma_views_without_absent;
use crate::names::lemma_views_without_at;
use crate::storage::ChatStore;
use crate::storage::log_insert;
use crate::storage::replay;

verus! {

/// The root channel, present on every node and undeletable.
pub open spec fn root_name() -> Seq<char> {
    "general"@
}

/// The index at which `views` holds `n` (meaningful when `n` occurs once).
pub open spec fn idx_of(views: Seq<Seq<char>>, n: Seq<char>) -> int {
    choose|i: int| 0 <= i < views.len() && views[i] == n
}

/// `views` holds no duplicates.
pub open spec fn distinct_views(views: Seq<Seq<char>>) -> bool {
    forall|i: int, j: int| 0 <= i < j < views.len() ==> views[i] != views[j]
}

/// `k` is the first position of its value in `views`.
pub open spec fn first_occurrence(views: Seq<Seq<char>>, k: int) -> bool {
    forall|j: int| 0 <= j < k ==> views[j] != views[k]
}

/// `views` with later duplicates dropped, first occurrences kept in order.
pub open spec fn dedup_views(views: Seq<Seq<char>>) -> Seq<Seq<char>>
    decreases views.len(),
{
    if views.len() == 0 {
        Seq::<Seq<char>>::empty()
    } else {
        let rest = dedup_views(views.drop_last());
        if rest.contains(views.last()) {
            rest
        } else {
            rest.push(views.last())
        }
    }
}

/// `views` followed by the root name when it is not already present.
pub open spec fn with_root(views: Seq<Seq<char>>) -> Seq<Seq<char>> {
    if views.contains(root_name()) {
        views
    } else {
        views.push(root_name())
    }
}

/// The entries of `list` that are neither in `existing` nor earlier in
/// `list`, first occurrences in order.
pub open spec fn unknown_views(existing: Seq<Seq<char>>, list: Seq<Seq<char>>) -> Seq<Seq<char>>
    decreases list.len(),
{
    if list.len() == 0 {
        Seq::<Seq<char>>::empty()
    } else {
        let rest = unknown_views(existing, list.drop_last());
        if existing.contains(list.last()) || rest.contains(list.last()) {
            rest
        } else {
            rest.push(list.last())
        }
    }
}

/// On a duplicate-free list, `idx_of` is the one position of the value.
pub proof fn lemma_idx_at(views: Seq<Seq<char>>, n: Seq<char>, i: int)
    requires
        distinct_views(views),
        0 <= i < views.len(),
        views[i] == n,
    ensures
        idx_of(views, n) == i,
        views.contains(n),
{
    assert(views.contains(n));
    let j = idx_of(views, n);
    assert(0 <= j < views.len() && views[j] == n);
    if i != j {
        assert(views[i] == views[j]);
        assert(false);
    }
}

/// Per-channel message stores and the channel name list.
pub struct ChannelState {
    channels: Vec<String>,
    stores: Vec<ChatStore>,
}

impl ChannelState {
    /// The channel names, in directory order.
    pub closed spec fn names(&self) -> Seq<Seq<char>> {
        name_views(self.channels@)
    }

    /// Whether a channel of that name is in the directory.
    pub open spec fn has_name(&self, n: Seq<char>) -> bool {
        self.names().contains(n)
    }

    /// Where the named channel sits.
    pub closed spec fn name_index(&self, n: Seq<char>) -> int {
        idx_of(self.names(), n)
    }

    /// The chat log of the named channel (meaningful when present).
    pub closed spec fn log_of(&self, n: Seq<char>) -> Seq<ChatMessage> {
        self.stores@[self.name_index(n)]@
    }

    /// Directory invariant: one store per name, no duplicate names, the root
    /// channel present, every store well-formed.
    pub closed spec fn wf(&self) -> bool {
        &&& self.stores@.len() == self.names().len()
        &&& distinct_views(self.names())
        &&& self.names().contains(root_name())
        &&& forall|i: int| 0 <= i < self.stores@.len() ==> (#[trigger] self.stores@[i]).wf()
    }

    /// A well-formed directory always holds the root channel.
    pub proof fn lemma_root_present(&self)
        requires
            self.wf(),
        ensures
            self.has_name(root_name()),
    {
    }

    /// The log of the channel at a position, as `log_of` sees it.
    proof fn lemma_at(&self, n: Seq<char>, i: int)
        requires
            distinct_views(self.names()),
            0 <= i < self.names().len(),
            self.names()[i] == n,
            self.stores@.len() == self.names().len(),
        ensures
            self.name_index(n) == i,
            self.has_name(n),
            self.log_of(n) == self.stores@[i]@,
    {
        lemma_idx_at(self.names(), n, i);
    }
}

/// Deduplication neither invents nor loses values.
pub proof fn lemma_dedup_contains(s: Seq<Seq<char>>, x: Seq<char>)
    ensures
        dedup_views(s).contains(x) <==> s.contains(x),
    decreases s.len(),
{
    if s.len() > 0 {
        let rest = s.drop_last();
        let dl = dedup_views(rest);
        let d = dedup_views(s);
        lemma_dedup_contains(rest, x);
        assert(forall|i: int| 0 <= i < rest.len() ==> rest[i] == s[i]);
        if s.contains(x) {
            let i = choose|i: int| 0 <= i < s.len() && s[i] == x;
            if i < s.len() - 1 {
                assert(rest[i] == x);
                assert(rest.contains(x));
                let j = choose|j: int| 0 <= j < dl.len() && dl[j] == x;
                assert(d[j] == x);
            } else {
                assert(s.last() == x);
                if dl.contains(x) {
                    let j = choose|j: int| 0 <= j < dl.len() && dl[j] == x;
                    assert(d[j] == x);
                } else {
                    assert(d.last() == x);
                }
            }
            assert(d.contains(x));
        }
        if d.contains(x) {
            if dl.contains(x) {
                let j = choose|j: int| 0 <= j < rest.len() && rest[j] == x;
                assert(s[j] == x);
            } else {
                let j = choose|j: int| 0 <= j < d.len() && d[j] == x;
                assert(j == d.len() - 1);
                assert(x == s.last());
                assert(s[s.len() - 1] == x);
            }
            assert(s.contains(x));
        }
    }
}

/// The names carried by a batch of merge entries.
pub open spec fn entry_names(entries: Seq<(String, Vec<ChatMessage>)>) -> Seq<Seq<char>> {
    entries.map_values(|e: (String, Vec<ChatMessage>)| e.0@)
}

/// Unknown entries are exactly those in the list but not already present.
pub proof fn lemma_unknown_contains(existing: Seq<Seq<char>>, list: Seq<Seq<char>>, x: Seq<char>)
    ensures
        unknown_views(existing, list).contains(x) <==> (!existing.contains(x) && list.contains(
            x,
        )),
    decreases list.len(),
{
    if list.len() > 0 {
        let rest = list.drop_last();
        let ul = unknown_views(existing, rest);
        let u = unknown_views(existing, list);
        lemma_unknown_contains(existing, rest, x);
        assert(forall|i: int| 0 <= i < rest.len() ==> rest[i] == list[i]);
        if !existing.contains(x) && list.contains(x) {
            let i = choose|i: int| 0 <= i < list.len() && list[i] == x;
            if i < list.len() - 1 {
                assert(rest[i] == x);
                assert(rest.contains(x));
                let j = choose|j: int| 0 <= j < ul.len() && ul[j] == x;
                assert(u[j] == x);
            } else {
                assert(list.last() == x);
                if ul.contains(x) {
                    let j = choose|j: int| 0 <= j < ul.len() && ul[j] == x;
                    assert(u[j] == x);
                } else {
                    assert(u.last() == x);
                }
            }
            assert(u.contains(x));
        }
        if u.contains(x) {
            if ul.contains(x) {
                let j = choose|j: int| 0 <= j < rest.len() && rest[j] == x;
                assert(list[j] == x);
                assert(list.contains(x));
            } else {
                let j = choose|j: int| 0 <= j < u.len() && u[j] == x;
                assert(j == u.len() - 1);
                assert(x == list.last());
                assert(list[list.len() - 1] == x);
                assert(list.contains(x));
            }
        }
    }
}

/// One name's slot in a channel/store list pair: present, and its store
/// holds the expected log.
pub open spec fn log_slot_ok(
    channels: Seq<String>,
    stores: Seq<ChatStore>,
    n: Seq<char>,
    expected: Seq<ChatMessage>,
) -> bool {
    let views = name_views(channels);
    let idx = idx_of(views, n);
    &&& views.contains(n)
    &&& 0 <= idx < stores.len()
    &&& views[idx] == n
    &&& stores[idx]@ == expected
}

/// Appending an unrelated pair leaves a slot intact.
proof fn lemma_slot_push(
    channels: Seq<String>,
    stores: Seq<ChatStore>,
    nm: String,
    st: ChatStore,
    n: Seq<char>,
    expected: Seq<ChatMessage>,
)
    requires
        log_slot_ok(channels, stores, n, expected),
        distinct_views(name_views(channels).push(nm@)),
        stores.len() == channels.len(),
    ensures
        log_slot_ok(channels.push(nm), stores.push(st), n, expected),
{
    let views = name_views(channels);
    let views2 = name_views(channels.push(nm));
    assert(views2 =~= views.push(nm@));
    let i = idx_of(views, n);
    assert(views2[i] == n);
    lemma_idx_at(views2, n, i);
    assert(stores.push(st)[i] == stores[i]);
}

/// The channel a query falls back to when none is named.
pub fn default_channel() -> (r: String)
    ensures
        r@ == root_name(),
{
    String::from_str("general")
}

/// Whether startup must rename the legacy journal `messages.json` to
/// `messages-general.json`: exactly when the legacy file exists and the root
/// journal does not.  (When the target exists the legacy file is left alone.)
pub fn needs_legacy_migration(legacy_exists: bool, general_exists: bool) -> (r: bool)
    ensures
        r == (legacy_exists && !general_exists),
{
    legacy_exists && !general_exists
}

/// Linear scan for a name in a channel list.
fn find_in(channels: &Vec<String>, name: &str) -> (r: Option<usize>)
    ensures
        match r {
            Option::Some(i) => 0 <= i < name_views(channels@).len() && name_views(channels@)[
                i as int
            ] == name@,
            Option::None => !name_views(channels@).contains(name@),
        },
{
    let n = channels.len();
    let mut i: usize = 0;
    while i < n
        invariant
            i <= n,
            n == channels@.len(),
            forall|j: int| 0 <= j < i ==> name_views(channels@)[j] != name@,
        decreases n - i,
    {
        if str_eq(channels[i].as_str(), name) {
            proof {
                assert(name_views(channels@)[i as int] == name@);
            }
            return Option::Some(i);
        }
        i = i + 1;
    }
    proof {
        assert forall|j: int|
            0 <= j < name_views(channels@).len() implies name_views(channels@)[j] != name@ by {}
        if name_views(channels@).contains(name@) {
            let j = choose|j: int|
                0 <= j < name_views(channels@).len() && name_views(channels@)[j] == name@;
            assert(false);
        }
    }
    Option::None
}

/// Mutable access to one store of the list.
fn store_at_mut(stores: &mut Vec<ChatStore>, i: usize) -> (r: &mut ChatStore)
    requires
        i < old(stores).len(),
    ensures
        *r == old(stores)@[i as int],
        final(stores)@ == old(stores)@.update(i as int, *final(r)),
{
    &mut stores[i]
}

impl ChannelState {
    /// Builds the directory from the configured channel list and one parsed
    /// journal snapshot per name.  Duplicate names collapse to their first
    /// occurrence; the root channel is added with an empty log when missing.
    pub fn open(names: Vec<String>, snapshots: Vec<Vec<ChatMessage>>) -> (r: ChannelState)
        requires
            names@.len() == snapshots@.len(),
        ensures
            r.wf(),
            r.names() == with_root(dedup_views(name_views(names@))),
            forall|k: int|
                0 <= k < names@.len() && #[trigger] first_occurrence(name_views(names@), k)
                    ==> r.log_of(name_views(names@)[k]) == replay(snapshots@[k]@),
            !name_views(names@).contains(root_name()) ==> r.log_of(root_name()).len() == 0,
    {
        let ghost ns = names@;
        let ghost av = name_views(names@);
        let ghost sv = snapshots@;
        let mut rest_names = names;
        let mut rest_snaps = snapshots;
        let mut channels: Vec<String> = Vec::new();
        let mut stores: Vec<ChatStore> = Vec::new();
        let ghost mut done: int = 0;
        proof {
            assert(av.take(0) =~= Seq::<Seq<char>>::empty());
            assert(rest_names@ =~= ns.skip(0));
            assert(rest_snaps@ =~= sv.skip(0));
        }
        while rest_names.len() > 0
            invariant
                0 <= done <= av.len(),
                av == name_views(ns),
                av.len() == ns.len(),
                sv.len() == ns.len(),
                rest_names@ == ns.skip(done),
                rest_snaps@ == sv.skip(done),
                stores@.len() == channels@.len(),
                name_views(channels@) == dedup_views(av.take(done)),
                distinct_views(name_views(channels@)),
                forall|i: int| 0 <= i < stores@.len() ==> (#[trigger] stores@[i]).wf(),
                forall|k: int|
                    0 <= k < done && #[trigger] first_occurrence(av, k) ==> log_slot_ok(
                        channels@,
                        stores@,
                        av[k],
                        replay(sv[k]@),
                    ),
            decreases rest_names@.len(),
        {
            let nm = rest_names.remove(0);
            let snap = rest_snaps.remove(0);
            proof {
                assert(ns.skip(done)[0] == ns[done]);
                assert(sv.skip(done)[0] == sv[done]);
                assert(rest_names@ =~= ns.skip(done + 1));
                assert(rest_snaps@ =~= sv.skip(done + 1));
                assert(nm@ == av[done]);
                assert(av.take(done + 1).drop_last() =~= av.take(done));
                assert(av.take(done + 1).last() == av[done]);
            }
            let ghost prev_channels = channels@;
            let ghost prev_stores = stores@;
            match find_in(&channels, nm.as_str()) {
                Option::Some(_) => {
                    proof {
                        assert(name_views(channels@).contains(av[done]));
                        lemma_dedup_contains(av.take(done), av[done]);
                        let j = choose|j: int|
                            0 <= j < av.take(done).len() && av.take(done)[j] == av[done];
                        assert(av[j] == av[done]);
                        assert(!first_occurrence(av, done));
                        done = done + 1;
                    }
                },
                Option::None => {
                    let store = ChatStore::from_snapshot(snap);
                    channels.push(nm);
                    stores.push(store);
                    proof {
                        assert(name_views(channels@) =~= name_views(prev_channels).push(av[done]));
                        assert(distinct_views(name_views(channels@))) by {
                            let v2 = name_views(channels@);
                            assert forall|i: int, j: int|
                                0 <= i < j < v2.len() implies v2[i] != v2[j] by {
                                if j < v2.len() - 1 {
                                    assert(name_views(prev_channels)[i] != name_views(
                                        prev_channels,
                                    )[j]);
                                } else {
                                    assert(v2[i] == name_views(prev_channels)[i]);
                                    assert(name_views(prev_channels).contains(v2[i]));
                                }
                            }
                        }
                        assert forall|k: int|
                            0 <= k < done + 1 && #[trigger] first_occurrence(av, k)
                                implies log_slot_ok(
                            channels@,
                            stores@,
                            av[k],
                            replay(sv[k]@),
                        ) by {
                            if k < done {
                                lemma_slot_push(
                                    prev_channels,
                                    prev_stores,
                                    channels@.last(),
                                    stores@.last(),
                                    av[k],
                                    replay(sv[k]@),
                                );
                                assert(channels@ =~= prev_channels.push(channels@.last()));
                                assert(stores@ =~= prev_stores.push(stores@.last()));
                            } else {
                                lemma_idx_at(
                                    name_views(channels@),
                                    av[done],
                                    name_views(prev_channels).len() as int,
                                );
                            }
                        }
                        done = done + 1;
                    }
                },
            }
        }
        proof {
            assert(av.take(av.len() as int) =~= av);
        }
        let ghost before_root_channels = channels@;
        let ghost before_root_stores = stores@;
        let mut root_added: bool = false;
        match find_in(&channels, "general") {
            Option::Some(_) => {},
            Option::None => {
                channels.push(String::from_str("general"));
                stores.push(ChatStore::new());
                root_added = true;
                proof {
                    assert(name_views(channels@) =~= name_views(before_root_channels).push(
                        root_name(),
                    ));
                    assert(distinct_views(name_views(channels@))) by {
                        let v2 = name_views(channels@);
                        assert forall|i: int, j: int|
                            0 <= i < j < v2.len() implies v2[i] != v2[j] by {
                            if j < v2.len() - 1 {
                                assert(name_views(before_root_channels)[i] != name_views(
                                    before_root_channels,
                                )[j]);
                            } else {
                                assert(v2[i] == name_views(before_root_channels)[i]);
                                assert(name_views(before_root_channels).contains(v2[i]));
                            }
                        }
                    }
                }
            },
        }
        proof {
            if root_added {
                assert forall|k: int|
                    0 <= k < av.len() && #[trigger] first_occurrence(av, k) implies log_slot_ok(
                    channels@,
                    stores@,
                    av[k],
                    replay(sv[k]@),
                ) by {
                    lemma_slot_push(
                        before_root_channels,
                        before_root_stores,
                        channels@.last(),
                        stores@.last(),
                        av[k],
                        replay(sv[k]@),
                    );
                    assert(channels@ =~= before_root_channels.push(channels@.last()));
                    assert(stores@ =~= before_root_stores.push(stores@.last()));
                }
                lemma_idx_at(
                    name_views(channels@),
                    root_name(),
                    name_views(before_root_channels).len() as int,
                );
            }
            if !av.contains(root_name()) {
                lemma_dedup_contains(av, root_name());
            }
        }
        let r = ChannelState { channels, stores };
        proof {
            assert forall|k: int|
                0 <= k < av.len() && #[trigger] first_occurrence(av, k) implies r.log_of(av[k])
                == replay(sv[k]@) by {
                assert(log_slot_ok(r.channels@, r.stores@, av[k], replay(sv[k]@)));
            }
        }
        r
    }

    /// A snapshot of the current channel names, in order.
    pub fn list(&self) -> (r: Vec<String>)
        ensures
            name_views(r@) == self.names(),
    {
        let r = self.channels.clone();
        proof {
            assert forall|i: int| 0 <= i < r@.len() implies r@[i]@ == self.channels@[i]@ by {
                assert(cloned(self.channels@[i], r@[i]));
            }
            assert(name_views(r@) =~= self.names());
        }
        r
    }

    /// A copy of the named channel's log; empty when the channel is unknown.
    pub fn messages(&self, channel: &str) -> (r: Vec<ChatMessage>)
        requires
            self.wf(),
        ensures
            self.has_name(channel@) ==> r@.len() == self.log_of(channel@).len() && (forall|i: int|
                0 <= i < r@.len() ==> #[trigger] r@[i]@ == self.log_of(channel@)[i]@),
            !self.has_name(channel@) ==> r@.len() == 0,
    {
        match find_in(&self.channels, channel) {
            Option::Some(i) => {
                proof {
                    self.lemma_at(channel@, i as int);
                }
                self.stores[i].messages()
            },
            Option::None => Vec::new(),
        }
    }

    /// The store of the named channel, if present.
    pub fn get_store(&self, channel: &str) -> (r: Option<&ChatStore>)
        requires
            self.wf(),
        ensures
            match r {
                Option::Some(s) => self.has_name(channel@) && s@ == self.log_of(channel@)
                    && s.wf(),
                Option::None => !self.has_name(channel@),
            },
    {
        match find_in(&self.channels, channel) {
            Option::Some(i) => {
                proof {
                    self.lemma_at(channel@, i as int);
                }
                Option::Some(&self.stores[i])
            },
            Option::None => Option::None,
        }
    }

    /// Validates and normalizes `name`, then inserts a new channel whose log
    /// is rebuilt from `snapshot` (the parsed journal file for that name, or
    /// empty).  `Ok(true)` means the directory changed and the caller should
    /// persist the configuration; `Ok(false)` means the channel was already
    /// present.
    pub fn add_channel_local(&mut self, name: &str, snapshot: Vec<ChatMessage>) -> (r: Result<
        bool,
        ChannelError,
    >)
        requires
            old(self).wf(),
        ensures
            final(self).wf(),
            match r {
                Ok(changed) => {
                    let n = normalized_name(name@);
                    &&& valid_name(n)
                    &&& if changed {
                        &&& !old(self).has_name(n)
                        &&& final(self).names() == old(self).names().push(n)
                        &&& final(self).log_of(n) == replay(snapshot@)
                        &&& forall|m: Seq<char>|
                            old(self).has_name(m) ==> final(self).has_name(m) && final(self).log_of(m) == old(self).log_of(m)
                    } else {
                        &&& old(self).has_name(n)
                        &&& *final(self) == *old(self)
                    }
                },
                Err(e) => {
                    &&& e == ChannelError::InvalidName
                    &&& !valid_name(normalized_name(name@))
                    &&& *final(self) == *old(self)
                },
            },
    {
        let norm = match normalize_channel_name(name) {
            Ok(n) => n,
            Err(e) => {
                return Err(e);
            },
        };
        let ghost n = norm@;
        match find_in(&self.channels, norm.as_str()) {
            Option::Some(_) => Ok(false),
            Option::None => {
                let store = ChatStore::from_snapshot(snapshot);
                self.channels.push(norm);
                self.stores.push(store);
                proof {
                    assert(final(self).names() =~= old(self).names().push(n));
                    assert(distinct_views(final(self).names())) by {
                        let v2 = final(self).names();
                        assert forall|i: int, j: int|
                            0 <= i < j < v2.len() implies v2[i] != v2[j] by {
                            if j < v2.len() - 1 {
                                assert(old(self).names()[i] != old(self).names()[j]);
                            } else {
                                assert(v2[i] == old(self).names()[i]);
                                assert(old(self).names().contains(v2[i]));
                            }
                        }
                    }
                    lemma_idx_at(final(self).names(), n, old(self).names().len() as int);
                    assert forall|m: Seq<char>|
                        old(self).has_name(m) implies final(self).has_name(m) && final(self).log_of(m) == old(self).log_of(m) by {
                        let k = choose|k: int|
                            0 <= k < old(self).names().len() && old(self).names()[k] == m;
                        old(self).lemma_at(m, k);
                        final(self).lemma_at(m, k);
                    }
                    let k = choose|k: int|
                        0 <= k < old(self).names().len() && old(self).names()[k] == root_name();
                    assert(final(self).names()[k] == root_name());
                }
                Ok(true)
            },
        }
    }

    /// Removes a channel and its store from memory; shared by the local and
    /// the remote removal paths.
    fn remove_in_place(&mut self, name: &str)
        requires
            old(self).wf(),
            name@ != root_name(),
        ensures
            final(self).wf(),
            final(self).names() == views_without(old(self).names(), name@),
            !final(self).has_name(name@),
            forall|m: Seq<char>|
                m != name@ && old(self).has_name(m) ==> final(self).has_name(m) && final(self).log_of(m) == old(self).log_of(m),
    {
        match find_in(&self.channels, name) {
            Option::None => {
                proof {
                    lemma_views_without_absent(old(self).names(), name@);
                }
            },
            Option::Some(i) => {
                self.channels.remove(i);
                self.stores.remove(i);
                proof {
                    let before = old(self).names();
                    let after = final(self).names();
                    assert(after =~= before.remove(i as int));
                    lemma_views_without_at(before, name@, i as int);
                    assert forall|j: int| 0 <= j < after.len() implies after[j] != name@ by {
                        if j < i {
                            assert(after[j] == before[j]);
                        } else {
                            assert(after[j] == before[j + 1]);
                        }
                    }
                    assert(!after.contains(name@)) by {
                        if after.contains(name@) {
                            let j = choose|j: int| 0 <= j < after.len() && after[j] == name@;
                            assert(false);
                        }
                    }
                    assert(distinct_views(after)) by {
                        assert forall|p: int, q: int|
                            0 <= p < q < after.len() implies after[p] != after[q] by {
                            let p0: int = if p < i {
                                p
                            } else {
                                p + 1
                            };
                            let q0: int = if q < i {
                                q
                            } else {
                                q + 1
                            };
                            assert(after[p] == before[p0]);
                            assert(after[q] == before[q0]);
                        }
                    }
                    assert forall|m: Seq<char>|
                        m != name@ && old(self).has_name(m) implies final(self).has_name(m)
                        && final(self).log_of(m) == old(self).log_of(m) by {
                        let k = choose|k: int| 0 <= k < before.len() && before[k] == m;
                        old(self).lemma_at(m, k);
                        assert(k != i);
                        let k2: int = if k < i {
                            k
                        } else {
                            k - 1
                        };
                        assert(after[k2] == m);
                        assert(final(self).stores@[k2] == old(self).stores@[k]) by {
                            if k >= i {
                                assert(k2 + 1 == k);
                            }
                        }
                        final(self).lemma_at(m, k2);
                    }
                    let k = choose|k: int|
                        0 <= k < before.len() && before[k] == root_name();
                    assert(k != i);
                    if k < i {
                        assert(after[k] == root_name());
                    } else {
                        assert(after[k - 1] == root_name());
                    }
                    assert(forall|j: int|
                        0 <= j < final(self).stores@.len()
                            ==> (#[trigger] final(self).stores@[j]).wf()) by {
                        assert forall|j: int|
                            0 <= j < final(self).stores@.len() implies (
                        #[trigger] final(self).stores@[j]).wf() by {
                            if j < i {
                                assert(final(self).stores@[j] == old(self).stores@[j]);
                            } else {
                                assert(final(self).stores@[j] == old(self).stores@[j + 1]);
                            }
                        }
                    }
                }
            },
        }
    }

    /// Removes a channel at local request; the root channel is protected.
    /// The caller persists the configuration change; the on-disk journal is
    /// deliberately retained.
    pub fn remove_channel_local(&mut self, name: &str) -> (r: Result<(), ChannelError>)
        requires
            old(self).wf(),
        ensures
            final(self).wf(),
            match r {
                Ok(u) => {
                    &&& name@ != root_name()
                    &&& final(self).names() == views_without(old(self).names(), name@)
                    &&& !final(self).has_name(name@)
                    &&& forall|m: Seq<char>|
                        m != name@ && old(self).has_name(m) ==> final(self).has_name(m)
                            && final(self).log_of(m) == old(self).log_of(m)
                },
                Err(e) => {
                    &&& e == ChannelError::ProtectedChannel
                    &&& name@ == root_name()
                    &&& *final(self) == *old(self)
                },
            },
    {
        if str_eq(name, "general") {
            return Err(ChannelError::ProtectedChannel);
        }
        self.remove_in_place(name);
        Ok(())
    }

    /// Applies a remote removal advertisement: drops the channel from memory
    /// only, and ignores the request entirely for the root channel.
    pub fn remove_channel_in_memory(&mut self, name: &str)
        requires
            old(self).wf(),
        ensures
            final(self).wf(),
            name@ == root_name() ==> *final(self) == *old(self),
            name@ != root_name() ==> {
                &&& final(self).names() == views_without(old(self).names(), name@)
                &&& !final(self).has_name(name@)
                &&& forall|m: Seq<char>|
                    m != name@ && old(self).has_name(m) ==> final(self).has_name(m) && final(self).log_of(m) == old(self).log_of(m)
            },
    {
        if str_eq(name, "general") {
            return ;
        }
        self.remove_in_place(name);
    }

    /// Surviving a push of a fresh pair: membership and logs are unchanged
    /// for every name already present.
    proof fn lemma_push_keeps(pre: ChannelState, post: ChannelState, m: Seq<char>)
        requires
            distinct_views(pre.names()),
            pre.stores@.len() == pre.names().len(),
            post.channels@.len() == pre.channels@.len() + 1,
            post.channels@.drop_last() == pre.channels@,
            post.stores@.len() == pre.stores@.len() + 1,
            post.stores@.drop_last() == pre.stores@,
            distinct_views(post.names()),
            pre.has_name(m),
        ensures
            post.has_name(m),
            post.log_of(m) == pre.log_of(m),
    {
        let k = choose|k: int| 0 <= k < pre.names().len() && pre.names()[k] == m;
        pre.lemma_at(m, k);
        assert(post.channels@[k] == pre.channels@[k]) by {
            assert(post.channels@.drop_last()[k] == pre.channels@[k]);
        }
        assert(post.names()[k] == m);
        assert(post.stores@[k] == pre.stores@[k]) by {
            assert(post.stores@.drop_last()[k] == pre.stores@[k]);
        }
        post.lemma_at(m, k);
    }

    /// The names of a remote advertisement that are not yet in the
    /// directory, first occurrences in order.
    pub fn unknown_channels(&self, list: &Vec<String>) -> (r: Vec<String>)
        ensures
            name_views(r@) == unknown_views(self.names(), name_views(list@)),
    {
        let ghost lv = name_views(list@);
        let mut out: Vec<String> = Vec::new();
        let n = list.len();
        let mut i: usize = 0;
        proof {
            assert(lv.take(0) =~= Seq::<Seq<char>>::empty());
            assert(name_views(out@) =~= unknown_views(self.names(), lv.take(0)));
        }
        while i < n
            invariant
                i <= n,
                n == list@.len(),
                lv == name_views(list@),
                name_views(out@) == unknown_views(self.names(), lv.take(i as int)),
            decreases n - i,
        {
            proof {
                assert(lv.take(i as int + 1).drop_last() =~= lv.take(i as int));
                assert(lv.take(i as int + 1).last() == lv[i as int]);
            }
            let known = match find_in(&self.channels, list[i].as_str()) {
                Option::Some(_) => true,
                Option::None => false,
            };
            let already = match find_in(&out, list[i].as_str()) {
                Option::Some(_) => true,
                Option::None => false,
            };
            if !known && !already {
                let entry = list[i].clone();
                proof {
                    assert(cloned(list@[i as int], entry));
                }
                out.push(entry);
                proof {
                    assert(name_views(out@) =~= unknown_views(self.names(), lv.take(i as int)).push(
                        lv[i as int],
                    ));
                }
            }
            i = i + 1;
        }
        proof {
            assert(lv.take(n as int) =~= lv);
        }
        out
    }

    /// Merges a remote channel advertisement: every name not yet present is
    /// added, with its log rebuilt from the snapshot supplied beside it (the
    /// parsed journal file for that name, or empty).  Existing channels are
    /// untouched, and the configuration is never written for remote merges.
    /// The directory never shrinks here.
    pub fn merge_channels_from_remote(&mut self, entries: Vec<(String, Vec<ChatMessage>)>)
        requires
            old(self).wf(),
        ensures
            final(self).wf(),
            final(self).names() == old(self).names() + unknown_views(
                old(self).names(),
                entry_names(entries@),
            ),
            forall|m: Seq<char>|
                old(self).has_name(m) ==> final(self).has_name(m) && final(self).log_of(m)
                    == old(self).log_of(m),
            forall|k: int|
                0 <= k < entries@.len() && !old(self).has_name(entry_names(entries@)[k])
                    && #[trigger] first_occurrence(entry_names(entries@), k)
                    ==> final(self).log_of(entry_names(entries@)[k]) == replay(entries@[k].1@),
    {
        let ghost sv = entries@;
        let ghost ev = entry_names(entries@);
        let ghost base = old(self).names();
        let mut rest = entries;
        let ghost mut done: int = 0;
        proof {
            assert(ev.take(0) =~= Seq::<Seq<char>>::empty());
            assert(self.names() =~= base + unknown_views(base, ev.take(0)));
            assert(rest@ =~= sv.skip(0));
        }
        while rest.len() > 0
            invariant
                0 <= done <= sv.len(),
                ev == entry_names(sv),
                ev.len() == sv.len(),
                rest@ == sv.skip(done),
                old(self).wf(),
                base == old(self).names(),
                self.wf(),
                self.names() == base + unknown_views(base, ev.take(done)),
                forall|m: Seq<char>|
                    old(self).has_name(m) ==> self.has_name(m) && self.log_of(m) == old(
                        self,
                    ).log_of(m),
                forall|k: int|
                    0 <= k < done && !base.contains(ev[k]) && #[trigger] first_occurrence(ev, k)
                        ==> self.has_name(ev[k]) && self.log_of(ev[k]) == replay(sv[k].1@),
            decreases rest@.len(),
        {
            let entry = rest.remove(0);
            proof {
                assert(sv.skip(done)[0] == sv[done]);
                assert(rest@ =~= sv.skip(done + 1));
                assert(entry.0@ == ev[done]);
                assert(ev.take(done + 1).drop_last() =~= ev.take(done));
                assert(ev.take(done + 1).last() == ev[done]);
            }
            let (nm, snap) = entry;
            let ghost prev = *self;
            match find_in(&self.channels, nm.as_str()) {
                Option::Some(_) => {
                    proof {
                        assert(self.has_name(ev[done]));
                        let j = choose|j: int|
                            0 <= j < self.names().len() && self.names()[j] == ev[done];
                        if j < base.len() {
                            assert(base[j] == ev[done]);
                            assert(base.contains(ev[done]));
                        } else {
                            assert(unknown_views(base, ev.take(done))[j - base.len()] == ev[
                                done
                            ]);
                            assert(unknown_views(base, ev.take(done)).contains(ev[done]));
                        }
                        assert(unknown_views(base, ev.take(done + 1)) == unknown_views(
                            base,
                            ev.take(done),
                        ));
                        if !base.contains(ev[done]) {
                            lemma_unknown_contains(base, ev.take(done), ev[done]);
                            let j2 = choose|j2: int|
                                0 <= j2 < ev.take(done).len() && ev.take(done)[j2] == ev[done];
                            assert(ev[j2] == ev[done]);
                            assert(!first_occurrence(ev, done));
                        }
                        done = done + 1;
                    }
                },
                Option::None => {
                    let store = ChatStore::from_snapshot(snap);
                    self.channels.push(nm);
                    self.stores.push(store);
                    proof {
                        assert(self.names() =~= prev.names().push(ev[done]));
                        assert(distinct_views(self.names())) by {
                            let v2 = self.names();
                            assert forall|p: int, q: int|
                                0 <= p < q < v2.len() implies v2[p] != v2[q] by {
                                if q < v2.len() - 1 {
                                    assert(prev.names()[p] != prev.names()[q]);
                                } else {
                                    assert(v2[p] == prev.names()[p]);
                                    assert(prev.names().contains(v2[p]));
                                }
                            }
                        }
                        assert(!base.contains(ev[done]) && !unknown_views(
                            base,
                            ev.take(done),
                        ).contains(ev[done])) by {
                            if base.contains(ev[done]) {
                                let j = choose|j: int| 0 <= j < base.len() && base[j] == ev[done];
                                assert(prev.names()[j] == ev[done]);
                                assert(prev.has_name(ev[done]));
                            }
                            if unknown_views(base, ev.take(done)).contains(ev[done]) {
                                let j = choose|j: int|
                                    0 <= j < unknown_views(base, ev.take(done)).len()
                                        && unknown_views(base, ev.take(done))[j] == ev[done];
                                assert(prev.names()[base.len() + j] == ev[done]);
                                assert(prev.has_name(ev[done]));
                            }
                        }
                        assert(self.names() =~= base + unknown_views(base, ev.take(done + 1)));
                        assert(self.channels@.drop_last() =~= prev.channels@);
                        assert(self.stores@.drop_last() =~= prev.stores@);
                        assert forall|m: Seq<char>|
                            old(self).has_name(m) implies self.has_name(m) && self.log_of(m)
                            == old(self).log_of(m) by {
                            Self::lemma_push_keeps(prev, *self, m);
                        }
                        lemma_idx_at(self.names(), ev[done], prev.names().len() as int);
                        assert(self.log_of(ev[done]) == replay(sv[done].1@));
                        assert forall|k: int|
                            0 <= k < done + 1 && !base.contains(ev[k])
                                && #[trigger] first_occurrence(ev, k) implies self.has_name(
                            ev[k],
                        ) && self.log_of(ev[k]) == replay(sv[k].1@) by {
                            if k < done {
                                Self::lemma_push_keeps(prev, *self, ev[k]);
                            }
                        }
                        let rk = choose|rk: int|
                            0 <= rk < prev.names().len() && prev.names()[rk] == root_name();
                        assert(self.names()[rk] == root_name());
                        done = done + 1;
                    }
                },
            }
        }
        proof {
            assert(ev.take(ev.len() as int) =~= ev);
        }
    }

    /// Sum of the log lengths of the first `k` channels.
    pub open spec fn total_upto(&self, k: int) -> nat
        decreases k,
    {
        if k <= 0 {
            0
        } else {
            self.total_upto(k - 1) + self.log_of(self.names()[k - 1]).len()
        }
    }

    /// Total number of stored messages across all channels, saturating at
    /// `usize::MAX`.
    pub fn total_messages(&self) -> (r: usize)
        requires
            self.wf(),
        ensures
            self.total_upto(self.names().len() as int) <= usize::MAX ==> r == self.total_upto(
                self.names().len() as int,
            ),
            self.total_upto(self.names().len() as int) > usize::MAX ==> r == usize::MAX,
    {
        let n = self.stores.len();
        let mut acc: usize = 0;
        let mut i: usize = 0;
        while i < n
            invariant
                i <= n,
                self.wf(),
                n == self.stores@.len(),
                self.total_upto(i as int) <= usize::MAX ==> acc == self.total_upto(i as int),
                self.total_upto(i as int) > usize::MAX ==> acc == usize::MAX,
            decreases n - i,
        {
            let len_i = self.stores[i].len();
            proof {
                self.lemma_at(self.names()[i as int], i as int);
            }
            acc = acc.saturating_add(len_i);
            i = i + 1;
        }
        acc
    }

    /// Hands a message to the named channel's store (idempotently); a message
    /// for an unknown channel is dropped.  Returns whether a store took it.
    pub fn append_message(&mut self, channel: &str, message: ChatMessage) -> (delivered: bool)
        requires
            old(self).wf(),
        ensures
            final(self).wf(),
            final(self).names() == old(self).names(),
            delivered == old(self).has_name(channel@),
            delivered ==> final(self).log_of(channel@) == log_insert(
                old(self).log_of(channel@),
                message,
            ),
            delivered ==> forall|m: Seq<char>|
                m != channel@ && old(self).has_name(m) ==> final(self).log_of(m) == old(
                    self,
                ).log_of(m),
            !delivered ==> *final(self) == *old(self),
    {
        match find_in(&self.channels, channel) {
            Option::Some(i) => {
                proof {
                    old(self).lemma_at(channel@, i as int);
                }
                let store = store_at_mut(&mut self.stores, i);
                store.append(message);
                proof {
                    assert(final(self).names() == old(self).names());
                    final(self).lemma_at(channel@, i as int);
                    assert forall|m: Seq<char>|
                        m != channel@ && old(self).has_name(m) implies final(self).log_of(m)
                        == old(self).log_of(m) by {
                        let k = choose|k: int|
                            0 <= k < old(self).names().len() && old(self).names()[k] == m;
                        old(self).lemma_at(m, k);
                        final(self).lemma_at(m, k);
                    }
                }
                true
            },
            Option::None => false,
        }
    }
}

} // verus!
