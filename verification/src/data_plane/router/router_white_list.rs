//! The registry of routes: only registered routes may be used.
use crate::data_plane::router::MatchType;
use crate::model::map_views;
use crate::outside::{compile_regex, regex_groups, regex_is_match, regex_new};
use crate::str_map::{
    distinct_keys, entry_of, has_key, key_position, lemma_entry_after_change, lemma_key_position,
    lemma_key_position_is, lemma_map_views, with_entry, without_entry, StrMap,
};
use crate::text::{opt_text, same_text, starts_with, texts};
use vstd::prelude::*;
use vstd::utf8::encode_utf8;

verus! {

/// A registered route.
pub struct RouteEntry {
    /// Unique name of the route.
    pub route_id: String,
    /// Path or pattern.
    pub path: String,
    /// Prefix, for prefix routes.
    pub prefix: Option<String>,
    /// How the route matches paths.
    pub match_type: MatchType,
    /// Allowed HTTP methods; every method when empty.
    pub methods: Vec<String>,
    /// Name of the upstream cluster.
    pub upstream: String,
    /// Who asked for the route.
    pub applicant: String,
    /// When it was asked for.
    pub applied_at: String,
    /// What the route is for.
    pub description: String,
    /// Whether requests must carry a valid JWT.
    pub is_auth: bool,
}

#[verifier::ext_equal]
pub struct EntryView {
    pub route_id: Seq<char>,
    pub path: Seq<char>,
    pub prefix: Option<Seq<char>>,
    pub match_type: MatchType,
    pub methods: Seq<Seq<char>>,
    pub upstream: Seq<char>,
    pub applicant: Seq<char>,
    pub applied_at: Seq<char>,
    pub description: Seq<char>,
    pub is_auth: bool,
}

impl View for RouteEntry {
    type V = EntryView;

    open spec fn view(&self) -> EntryView {
        EntryView {
            route_id: self.route_id@,
            path: self.path@,
            prefix: opt_text(self.prefix),
            match_type: self.match_type,
            methods: texts(self.methods@),
            upstream: self.upstream@,
            applicant: self.applicant@,
            applied_at: self.applied_at@,
            description: self.description@,
            is_auth: self.is_auth,
        }
    }
}

impl EntryView {
    /// The prefix of a prefix route: its own, or else its path.
    pub open spec fn prefix_text(self) -> Seq<char> {
        match self.prefix {
            Some(p) => p,
            None => self.path,
        }
    }

    /// The length of that prefix in bytes.
    pub open spec fn prefix_len(self) -> nat {
        encode_utf8(self.prefix_text()).len()
    }

    /// Whether the route matches a path. A prefix must not be empty.
    pub open spec fn matches_path(self, path: Seq<char>) -> bool {
        match self.match_type {
            MatchType::Exact => self.path == path,
            MatchType::Regex => regex_new(self.path) matches Ok(re) && regex_groups(
                re,
                path,
            ) is Some,
            MatchType::Prefix => self.prefix_text().is_prefix_of(path) && self.prefix_len() > 0,
        }
    }
}

/// Registered routes by id.
pub type Entries = Seq<(Seq<char>, EntryView)>;

/// The first route of a kind that matches a path.
pub open spec fn first_of_kind(entries: Entries, kind: MatchType, path: Seq<char>) -> Option<
    EntryView,
>
    decreases entries.len(),
{
    if entries.len() == 0 {
        None
    } else if entries[0].1.match_type == kind && entries[0].1.matches_path(path) {
        Some(entries[0].1)
    } else {
        first_of_kind(entries.skip(1), kind, path)
    }
}

/// The length of the prefix of an optional route.
pub open spec fn opt_prefix_len(entry: Option<EntryView>) -> nat {
    match entry {
        Some(e) => e.prefix_len(),
        None => 0,
    }
}

/// The prefix route with the longest prefix that matches a path; the first of them
/// where several are as long.
pub open spec fn longest_prefix(entries: Entries, path: Seq<char>) -> Option<EntryView>
    decreases entries.len(),
{
    if entries.len() == 0 {
        None
    } else {
        let best = longest_prefix(entries.drop_last(), path);
        let last = entries.last().1;
        if last.match_type == MatchType::Prefix && last.prefix_text().is_prefix_of(path)
            && last.prefix_len() > opt_prefix_len(best) {
            Some(last)
        } else {
            best
        }
    }
}

/// The registered route of a path: exact routes come before expressions, and
/// expressions before prefixes, of which the longest is taken.
pub open spec fn resolve(entries: Entries, path: Seq<char>) -> Option<EntryView> {
    match first_of_kind(entries, MatchType::Exact, path) {
        Some(e) => Some(e),
        None => match first_of_kind(entries, MatchType::Regex, path) {
            Some(e) => Some(e),
            None => longest_prefix(entries, path),
        },
    }
}

/// Whether every route is registered once, under its own id.
pub open spec fn valid_entries(entries: Entries) -> bool {
    &&& distinct_keys(entries)
    &&& forall|i: int|
        0 <= i < entries.len() ==> (#[trigger] entries[i]).0 == entries[i].1.route_id
}

/// The registry.
pub struct RouteRegistry {
    registered_routes: StrMap<RouteEntry>,
}

impl View for RouteRegistry {
    type V = Entries;

    closed spec fn view(&self) -> Entries {
        map_views(self.registered_routes@)
    }
}

impl RouteRegistry {
    #[verifier::type_invariant]
    spec fn inv(self) -> bool {
        valid_entries(self@)
    }

    /// A registry without routes.
    pub fn new() -> (r: Self)
        ensures
            r@ == Seq::<(Seq<char>, EntryView)>::empty(),
    {
        let registered_routes: StrMap<RouteEntry> = StrMap::new();
        assert(map_views(registered_routes@) =~= Seq::<(Seq<char>, EntryView)>::empty());
        RouteRegistry { registered_routes }
    }

    /// Registers a route, in place of one with the same id.
    pub fn register(&mut self, entry: RouteEntry)
        ensures
            final(self)@ == with_entry(old(self)@, entry@.route_id, entry@),
            valid_entries(final(self)@),
    {
        proof {
            use_type_invariant(&*self);
            lemma_map_views(self.registered_routes@, entry.route_id@);
            lemma_registered_is_valid(self@, entry@);
        }
        let mut routes: StrMap<RouteEntry> = StrMap::new();
        core::mem::swap(&mut routes, &mut self.registered_routes);
        routes.insert(entry.route_id.clone(), entry);
        self.registered_routes = routes;
    }

    /// Takes a route out of the registry; tells whether it was there.
    pub fn unregister(&mut self, route_id: &str) -> (r: bool)
        ensures
            final(self)@ == without_entry(old(self)@, route_id@),
            r == has_key(old(self)@, route_id@),
            valid_entries(final(self)@),
    {
        proof {
            use_type_invariant(&*self);
            lemma_map_views(self.registered_routes@, route_id@);
            lemma_unregistered_is_valid(self@, route_id@);
        }
        let mut routes: StrMap<RouteEntry> = StrMap::new();
        core::mem::swap(&mut routes, &mut self.registered_routes);
        let r = routes.remove(route_id);
        self.registered_routes = routes;
        r
    }

    /// The id of the registered route of a path.
    pub fn resolve_path(&self, path: &str) -> (r: Option<String>)
        ensures
            opt_text(r) == match resolve(self@, path@) {
                Some(e) => Some(e.route_id),
                None => None,
            },
            valid_entries(self@),
    {
        proof {
            use_type_invariant(self);
        }
        if let Some(e) = self.find_of_kind(MatchType::Exact, path) {
            return Some(e.route_id.clone());
        }
        if let Some(e) = self.find_of_kind(MatchType::Regex, path) {
            return Some(e.route_id.clone());
        }
        match self.find_longest_prefix(path) {
            Some(e) => Some(e.route_id.clone()),
            None => None,
        }
    }

    /// The first exact route, or the first expression, that matches a path.
    fn find_of_kind(&self, kind: MatchType, path: &str) -> (r: Option<&RouteEntry>)
        requires
            kind != MatchType::Prefix,
        ensures
            match r {
                Some(e) => first_of_kind(self@, kind, path@) == Some(e@),
                None => first_of_kind(self@, kind, path@) is None,
            },
    {
        let ghost all = self@;
        let mut i: usize = 0;
        assert(all.skip(0) =~= all);
        while i < self.registered_routes.len()
            invariant
                i <= self.registered_routes@.len(),
                all == map_views(self.registered_routes@),
                kind != MatchType::Prefix,
                first_of_kind(all, kind, path@) == first_of_kind(all.skip(i as int), kind, path@),
            decreases self.registered_routes@.len() - i,
        {
            let entry = self.registered_routes.value_at(i);
            proof {
                assert(all.skip(i as int)[0].1 == entry@);
                assert(all.skip(i as int).skip(1) =~= all.skip(i + 1));
            }
            if entry.match_type == kind && entry_matches(entry, path) {
                return Some(entry);
            }
            i += 1;
        }
        None
    }

    /// The prefix route with the longest prefix that matches a path.
    fn find_longest_prefix(&self, path: &str) -> (r: Option<&RouteEntry>)
        ensures
            match r {
                Some(e) => longest_prefix(self@, path@) == Some(e@),
                None => longest_prefix(self@, path@) is None,
            },
    {
        let ghost all = self@;
        let mut best: Option<&RouteEntry> = None;
        let mut best_len: usize = 0;
        let mut i: usize = 0;
        while i < self.registered_routes.len()
            invariant
                i <= self.registered_routes@.len(),
                all == map_views(self.registered_routes@),
                match best {
                    Some(e) => longest_prefix(all.take(i as int), path@) == Some(e@),
                    None => longest_prefix(all.take(i as int), path@) is None,
                },
                best_len == opt_prefix_len(longest_prefix(all.take(i as int), path@)),
            decreases self.registered_routes@.len() - i,
        {
            let entry = self.registered_routes.value_at(i);
            proof {
                assert(all.take(i + 1).drop_last() =~= all.take(i as int));
                assert(all.take(i + 1).last().1 == entry@);
            }
            if entry.match_type == MatchType::Prefix {
                let prefix = prefix_of(entry);
                if starts_with(path, prefix) && prefix.as_bytes().len() > best_len {
                    best_len = prefix.as_bytes().len();
                    best = Some(entry);
                }
            }
            i += 1;
        }
        assert(all.take(i as int) =~= all);
        best
    }

    /// All registered routes.
    pub fn list_routes(&self) -> (r: Vec<&RouteEntry>)
        ensures
            r@.len() == self@.len(),
            forall|i: int| 0 <= i < r@.len() ==> (#[trigger] r@[i])@ == self@[i].1,
            valid_entries(self@),
    {
        proof {
            use_type_invariant(self);
        }
        let mut r: Vec<&RouteEntry> = Vec::new();
        let mut i: usize = 0;
        while i < self.registered_routes.len()
            invariant
                i <= self.registered_routes@.len(),
                r@.len() == i,
                forall|j: int| 0 <= j < i ==> (#[trigger] r@[j])@ == self@[j].1,
            decreases self.registered_routes@.len() - i,
        {
            r.push(self.registered_routes.value_at(i));
            i += 1;
        }
        r
    }

    /// The registered route with the given id.
    pub fn find_route(&self, route_id: &str) -> (r: Option<&RouteEntry>)
        ensures
            match r {
                Some(e) => entry_of(self@, route_id@) == Some(e@),
                None => entry_of(self@, route_id@) is None,
            },
            valid_entries(self@),
    {
        proof {
            use_type_invariant(self);
            lemma_map_views(self.registered_routes@, route_id@);
        }
        self.registered_routes.get(route_id)
    }
}

/// The prefix of a prefix route.
fn prefix_of(entry: &RouteEntry) -> (r: &str)
    ensures
        r@ == entry@.prefix_text(),
{
    match &entry.prefix {
        Some(p) => p.as_str(),
        None => entry.path.as_str(),
    }
}

/// Whether an exact route or an expression matches a path.
fn entry_matches(entry: &RouteEntry, path: &str) -> (r: bool)
    requires
        entry.match_type != MatchType::Prefix,
    ensures
        r == entry@.matches_path(path@),
{
    match entry.match_type {
        MatchType::Exact => same_text(entry.path.as_str(), path),
        _ => match compile_regex(entry.path.as_str()) {
            Ok(re) => regex_is_match(&re, path),
            Err(_) => false,
        },
    }
}

// ---- laws ----

pub proof fn lemma_registered_is_valid(entries: Entries, entry: EntryView)
    requires
        valid_entries(entries),
    ensures
        valid_entries(with_entry(entries, entry.route_id, entry)),
{
    lemma_key_position(entries, entry.route_id);
    lemma_entry_after_change(entries, entry.route_id, entry, entry.route_id);
}

pub proof fn lemma_unregistered_is_valid(entries: Entries, id: Seq<char>)
    requires
        valid_entries(entries),
    ensures
        valid_entries(without_entry(entries, id)),
{
    lemma_key_position(entries, id);
    if key_position(entries, id) < entries.len() {
        lemma_entry_after_change(entries, id, entries[0].1, id);
    }
}

/// A route that is registered is found under its id; every other one is found as
/// before.
pub proof fn registered_route_is_found(entries: Entries, entry: EntryView, other: Seq<char>)
    requires
        valid_entries(entries),
    ensures
        entry_of(with_entry(entries, entry.route_id, entry), entry.route_id) == Some(entry),
        other != entry.route_id ==> entry_of(with_entry(entries, entry.route_id, entry), other)
            == entry_of(entries, other),
{
    lemma_entry_after_change(entries, entry.route_id, entry, other);
    lemma_entry_after_change(entries, entry.route_id, entry, entry.route_id);
}

/// A route that is taken out is not found; every other one is found as before.
pub proof fn unregistered_route_is_gone(entries: Entries, id: Seq<char>, other: Seq<char>)
    requires
        valid_entries(entries),
    ensures
        entry_of(without_entry(entries, id), id) is None,
        other != id ==> entry_of(without_entry(entries, id), other) == entry_of(entries, other),
{
    lemma_key_position(entries, id);
    if key_position(entries, id) < entries.len() {
        lemma_entry_after_change(entries, id, entries[0].1, other);
        lemma_entry_after_change(entries, id, entries[0].1, id);
    }
}

/// Whether some registered route of a kind matches a path.
pub open spec fn some_of_kind(entries: Entries, kind: MatchType, path: Seq<char>) -> bool {
    exists|i: int|
        0 <= i < entries.len() && (#[trigger] entries[i]).1.match_type == kind
            && entries[i].1.matches_path(path)
}

proof fn lemma_first_of_kind(entries: Entries, kind: MatchType, path: Seq<char>)
    ensures
        first_of_kind(entries, kind, path) is Some <==> some_of_kind(entries, kind, path),
        first_of_kind(entries, kind, path) matches Some(e) ==> e.match_type == kind
            && e.matches_path(path) && exists|i: int|
            0 <= i < entries.len() && (#[trigger] entries[i]).1 == e,
    decreases entries.len(),
{
    if entries.len() > 0 {
        let rest = entries.skip(1);
        lemma_first_of_kind(rest, kind, path);
        if entries[0].1.match_type == kind && entries[0].1.matches_path(path) {
        } else {
            if some_of_kind(rest, kind, path) {
                let i = choose|i: int|
                    0 <= i < rest.len() && (#[trigger] rest[i]).1.match_type == kind
                        && rest[i].1.matches_path(path);
                assert(entries[i + 1] == rest[i]);
            }
            if some_of_kind(entries, kind, path) {
                let i = choose|i: int|
                    0 <= i < entries.len() && (#[trigger] entries[i]).1.match_type == kind
                        && entries[i].1.matches_path(path);
                assert(rest[i - 1] == entries[i]);
            }
            if let Some(e) = first_of_kind(rest, kind, path) {
                let i = choose|i: int| 0 <= i < rest.len() && (#[trigger] rest[i]).1 == e;
                assert(entries[i + 1] == rest[i]);
            }
        }
    }
}

proof fn lemma_longest_prefix(entries: Entries, path: Seq<char>)
    ensures
        longest_prefix(entries, path) is Some <==> some_of_kind(entries, MatchType::Prefix, path),
        longest_prefix(entries, path) matches Some(e) ==> e.match_type == MatchType::Prefix
            && e.matches_path(path) && exists|i: int|
            0 <= i < entries.len() && (#[trigger] entries[i]).1 == e,
        forall|i: int|
            0 <= i < entries.len() && (#[trigger] entries[i]).1.match_type == MatchType::Prefix
                && entries[i].1.matches_path(path) ==> entries[i].1.prefix_len()
                <= opt_prefix_len(longest_prefix(entries, path)),
    decreases entries.len(),
{
    if entries.len() > 0 {
        let front = entries.drop_last();
        lemma_longest_prefix(front, path);
        assert forall|i: int| 0 <= i < front.len() implies #[trigger] front[i] == entries[i] by {}
        let last = entries.len() - 1;
        assert(entries[last] == entries.last());
        if let Some(e) = longest_prefix(front, path) {
            let i = choose|i: int| 0 <= i < front.len() && (#[trigger] front[i]).1 == e;
            assert(entries[i].1 == e);
        }
        assert forall|i: int|
            0 <= i < entries.len() && (#[trigger] entries[i]).1.match_type == MatchType::Prefix
                && entries[i].1.matches_path(path) implies entries[i].1.prefix_len()
            <= opt_prefix_len(longest_prefix(entries, path)) by {
            if i < last {
                assert(front[i] == entries[i]);
            }
        }
        if some_of_kind(entries, MatchType::Prefix, path) {
            let i = choose|i: int|
                0 <= i < entries.len() && (#[trigger] entries[i]).1.match_type == MatchType::Prefix
                    && entries[i].1.matches_path(path);
            if i < last {
                assert(front[i] == entries[i]);
            }
        }
    }
}

/// The first route of a kind that matches a path, with its place.
pub proof fn lemma_first_of_kind_at(entries: Entries, kind: MatchType, path: Seq<char>) -> (at: int)
    requires
        first_of_kind(entries, kind, path) is Some,
    ensures
        0 <= at < entries.len(),
        first_of_kind(entries, kind, path) == Some(entries[at].1),
        entries[at].1.match_type == kind,
        entries[at].1.matches_path(path),
        forall|i: int|
            0 <= i < at ==> !((#[trigger] entries[i]).1.match_type == kind
                && entries[i].1.matches_path(path)),
    decreases entries.len(),
{
    if entries[0].1.match_type == kind && entries[0].1.matches_path(path) {
        0
    } else {
        let rest = entries.skip(1);
        let at = lemma_first_of_kind_at(rest, kind, path) + 1;
        assert forall|i: int| 0 <= i < at implies !((#[trigger] entries[i]).1.match_type == kind
            && entries[i].1.matches_path(path)) by {
            if i > 0 {
                assert(rest[i - 1] == entries[i]);
            }
        }
        at
    }
}

/// The prefix route with the longest prefix that matches a path, with its place.
pub proof fn lemma_longest_prefix_at(entries: Entries, path: Seq<char>) -> (at: int)
    requires
        longest_prefix(entries, path) is Some,
    ensures
        0 <= at < entries.len(),
        longest_prefix(entries, path) == Some(entries[at].1),
        entries[at].1.match_type == MatchType::Prefix,
        entries[at].1.matches_path(path),
        forall|i: int|
            0 <= i < entries.len() && (#[trigger] entries[i]).1.match_type == MatchType::Prefix
                && entries[i].1.matches_path(path) ==> entries[i].1.prefix_len()
                <= entries[at].1.prefix_len() && (i < at ==> entries[i].1.prefix_len()
                < entries[at].1.prefix_len()),
    decreases entries.len(),
{
    let front = entries.drop_last();
    let last = entries.len() - 1;
    lemma_longest_prefix(entries, path);
    lemma_longest_prefix(front, path);
    if longest_prefix(entries, path) == longest_prefix(front, path) {
        let at = lemma_longest_prefix_at(front, path);
        assert(entries[at] == front[at]);
        assert forall|i: int|
            0 <= i < entries.len() && (#[trigger] entries[i]).1.match_type == MatchType::Prefix
                && entries[i].1.matches_path(path) implies entries[i].1.prefix_len()
            <= entries[at].1.prefix_len() && (i < at ==> entries[i].1.prefix_len()
            < entries[at].1.prefix_len()) by {
            if i < last {
                assert(front[i] == entries[i]);
            }
        }
        at
    } else {
        assert(longest_prefix(entries, path) == Some(entries[last].1));
        assert forall|i: int|
            0 <= i < entries.len() && (#[trigger] entries[i]).1.match_type == MatchType::Prefix
                && entries[i].1.matches_path(path) implies entries[i].1.prefix_len()
            <= entries[last].1.prefix_len() && (i < last ==> entries[i].1.prefix_len()
            < entries[last].1.prefix_len()) by {
            if i < last {
                assert(front[i] == entries[i]);
            }
        }
        last
    }
}

/// The route that a path resolves to is registered under its id.
pub proof fn resolved_route_is_registered(entries: Entries, path: Seq<char>)
    requires
        valid_entries(entries),
    ensures
        resolve(entries, path) matches Some(e) ==> entry_of(entries, e.route_id) == Some(e),
{
    if let Some(e) = resolve(entries, path) {
        let at = if first_of_kind(entries, MatchType::Exact, path) is Some {
            lemma_first_of_kind_at(entries, MatchType::Exact, path)
        } else if first_of_kind(entries, MatchType::Regex, path) is Some {
            lemma_first_of_kind_at(entries, MatchType::Regex, path)
        } else {
            lemma_longest_prefix_at(entries, path)
        };
        assert(entries[at].0 == e.route_id);
        assert forall|i: int| 0 <= i < at implies #[trigger] entries[i].0 != e.route_id by {
            assert(entries[i].0 != entries[at].0);
        }
        lemma_key_position_is(entries, e.route_id, at);
    }
}

/// A path resolves exactly if some registered route matches it, and then to one
/// that does: to an exact route where there is one, else to an expression where
/// there is one, else to a prefix than which no matching one is longer.
pub proof fn paths_resolve_by_priority(entries: Entries, path: Seq<char>)
    ensures
        resolve(entries, path) is Some <==> exists|i: int|
            0 <= i < entries.len() && (#[trigger] entries[i]).1.matches_path(path),
        resolve(entries, path) matches Some(e) ==> {
            &&& e.matches_path(path)
            &&& exists|i: int| 0 <= i < entries.len() && (#[trigger] entries[i]).1 == e
            &&& some_of_kind(entries, MatchType::Exact, path) ==> e.match_type == MatchType::Exact
            &&& !some_of_kind(entries, MatchType::Exact, path) && some_of_kind(
                entries,
                MatchType::Regex,
                path,
            ) ==> e.match_type == MatchType::Regex
            &&& e.match_type == MatchType::Prefix ==> forall|i: int|
                0 <= i < entries.len() && (#[trigger] entries[i]).1.match_type == MatchType::Prefix
                    && entries[i].1.matches_path(path) ==> entries[i].1.prefix_len()
                    <= e.prefix_len()
        },
{
    lemma_first_of_kind(entries, MatchType::Exact, path);
    lemma_first_of_kind(entries, MatchType::Regex, path);
    lemma_longest_prefix(entries, path);
    if exists|i: int| 0 <= i < entries.len() && (#[trigger] entries[i]).1.matches_path(path) {
        let i = choose|i: int|
            0 <= i < entries.len() && (#[trigger] entries[i]).1.matches_path(path);
        assert(some_of_kind(entries, entries[i].1.match_type, path));
    }
}

/// A registered route matches by its kind: its own path, a path in which its expression is
/// found, or one that begins with its prefix, which must not be empty.
pub proof fn entries_match_by_their_kind(entry: EntryView, path: Seq<char>)
    ensures
        entry.match_type == MatchType::Exact ==> (entry.matches_path(path) <==> path == entry.path),
        entry.match_type == MatchType::Regex ==> (entry.matches_path(path) <==> (regex_new(
            entry.path,
        ) matches Ok(re) && regex_groups(re, path) is Some)),
        entry.match_type == MatchType::Prefix && entry.matches_path(path) ==> ({
            let prefix = if entry.prefix is Some {
                entry.prefix->0
            } else {
                entry.path
            };
            prefix.len() <= path.len() && path.take(prefix.len() as int) == prefix && encode_utf8(
                prefix,
            ).len() > 0
        }),
        forall|rest: Seq<char>|
            entry.match_type == MatchType::Prefix && entry.prefix_len() > 0 && path
                == #[trigger] (entry.prefix_text() + rest) ==> entry.matches_path(path),
{
    assert forall|rest: Seq<char>|
        entry.match_type == MatchType::Prefix && entry.prefix_len() > 0 && path == #[trigger] (
        entry.prefix_text() + rest) implies entry.matches_path(path) by {
        assert(path.take(entry.prefix_text().len() as int) =~= entry.prefix_text());
    }
}

/// Of several exact routes that match a path, and of several expressions where no exact route
/// matches, the one that was registered first is taken, at whatever place it stands.
pub proof fn first_registered_route_counts(entries: Entries, path: Seq<char>, k: int)
    requires
        0 <= k < entries.len(),
        entries[k].1.match_type != MatchType::Prefix,
        entries[k].1.matches_path(path),
        entries[k].1.match_type == MatchType::Regex ==> !some_of_kind(
            entries,
            MatchType::Exact,
            path,
        ),
        forall|i: int|
            0 <= i < k && (#[trigger] entries[i]).1.match_type == entries[k].1.match_type
                ==> !entries[i].1.matches_path(path),
    ensures
        resolve(entries, path) == Some(entries[k].1),
{
    let kind = entries[k].1.match_type;
    lemma_first_of_kind(entries, MatchType::Exact, path);
    assert(some_of_kind(entries, kind, path));
    lemma_first_of_kind(entries, kind, path);
    let at = lemma_first_of_kind_at(entries, kind, path);
    if at < k {
        assert(!entries[at].1.matches_path(path));
    }
    if k < at {
        assert(!(entries[k].1.match_type == kind && entries[k].1.matches_path(path)));
    }
}

/// Where neither an exact route nor an expression matches a path, the prefix route is taken
/// than which no matching one is longer, and of those that are as long the one that was
/// registered first.
pub proof fn longest_registered_prefix_counts(entries: Entries, path: Seq<char>, k: int)
    requires
        0 <= k < entries.len(),
        entries[k].1.match_type == MatchType::Prefix,
        entries[k].1.matches_path(path),
        !some_of_kind(entries, MatchType::Exact, path),
        !some_of_kind(entries, MatchType::Regex, path),
        forall|i: int|
            0 <= i < entries.len() && (#[trigger] entries[i]).1.match_type == MatchType::Prefix
                && entries[i].1.matches_path(path) ==> entries[i].1.prefix_len()
                <= entries[k].1.prefix_len() && (i < k ==> entries[i].1.prefix_len()
                < entries[k].1.prefix_len()),
    ensures
        resolve(entries, path) == Some(entries[k].1),
{
    lemma_first_of_kind(entries, MatchType::Exact, path);
    lemma_first_of_kind(entries, MatchType::Regex, path);
    assert(some_of_kind(entries, MatchType::Prefix, path));
    lemma_longest_prefix(entries, path);
    let at = lemma_longest_prefix_at(entries, path);
    assert(entries[at].1.prefix_len() <= entries[k].1.prefix_len());
    assert(entries[k].1.prefix_len() <= entries[at].1.prefix_len());
}

} // verus!
