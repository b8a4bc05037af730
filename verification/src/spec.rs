//! The typed border: the `(defcommentcommand ...)` catalog shape, the
//! permission tiers a knock is checked against, and where a trusted knock is
//! dispatched.

use vstd::prelude::*;

use crate::text::{owned, str_eq};

verus! {

/// A GitHub repository permission tier, ordered from least to most
/// privileged. Declaration order is the trust order: the derived `Ord`
/// follows it, and [`Permission::rank`] numbers it.
#[derive(Debug, Clone, Copy, PartialEq, Eq, PartialOrd, Ord, Hash, Structural)]
pub enum Permission {
    NoAccess,
    Read,
    Triage,
    Write,
    Maintain,
    Admin,
}

impl Permission {
    /// The tier's position in the trust order, `NoAccess` lowest.
    pub open spec fn rank(self) -> nat {
        match self {
            Permission::NoAccess => 0,
            Permission::Read => 1,
            Permission::Triage => 2,
            Permission::Write => 3,
            Permission::Maintain => 4,
            Permission::Admin => 5,
        }
    }

    /// The tier's position in the trust order, `NoAccess` lowest.
    pub fn level(self) -> (r: u8)
        ensures
            r == self.rank(),
    {
        match self {
            Permission::NoAccess => 0,
            Permission::Read => 1,
            Permission::Triage => 2,
            Permission::Write => 3,
            Permission::Maintain => 4,
            Permission::Admin => 5,
        }
    }

    /// Whether this tier is at least `min` in the trust order.
    pub fn at_least(self, min: Permission) -> (r: bool)
        ensures
            r == (self.rank() >= min.rank()),
    {
        self.level() >= min.level()
    }

    /// Parse a GitHub REST `permission` string
    /// (`GET /repos/{owner}/{repo}/collaborators/{username}/permission`).
    /// An unrecognized value maps to [`Permission::NoAccess`]: never an upgrade
    /// of trust on an unexpected API shape.
    pub fn from_github_str(s: &str) -> (p: Permission)
        ensures
            p == github_permission(s@),
    {
        if str_eq(s, "read") {
            Permission::Read
        } else if str_eq(s, "triage") {
            Permission::Triage
        } else if str_eq(s, "write") {
            Permission::Write
        } else if str_eq(s, "maintain") {
            Permission::Maintain
        } else if str_eq(s, "admin") {
            Permission::Admin
        } else {
            Permission::NoAccess
        }
    }
}

/// Declaration order is the trust order: the tiers' ranks ascend strictly
/// from `NoAccess` through `Read`, `Triage`, `Write` and `Maintain` to
/// `Admin`, so no two tiers share a rank.
pub proof fn law_permission_order()
    ensures
        Permission::NoAccess.rank() < Permission::Read.rank(),
        Permission::Read.rank() < Permission::Triage.rank(),
        Permission::Triage.rank() < Permission::Write.rank(),
        Permission::Write.rank() < Permission::Maintain.rank(),
        Permission::Maintain.rank() < Permission::Admin.rank(),
        forall|a: Permission, b: Permission| a.rank() == b.rank() ==> a == b,
{
}

/// Parsing a GitHub permission string never upgrades trust: every string
/// other than the five tier names maps to the lowest tier.
pub proof fn law_unknown_permission_is_lowest(s: Seq<char>)
    requires
        s != "read"@,
        s != "triage"@,
        s != "write"@,
        s != "maintain"@,
        s != "admin"@,
    ensures
        github_permission(s) == Permission::NoAccess,
{
}

/// The tier a GitHub REST `permission` string names; anything else is
/// `NoAccess`.
pub open spec fn github_permission(s: Seq<char>) -> Permission {
    if s == "read"@ {
        Permission::Read
    } else if s == "triage"@ {
        Permission::Triage
    } else if s == "write"@ {
        Permission::Write
    } else if s == "maintain"@ {
        Permission::Maintain
    } else if s == "admin"@ {
        Permission::Admin
    } else {
        Permission::NoAccess
    }
}

/// The catalog keyword for each tier (`none|read|triage|write|maintain|admin`),
/// or `None` for any other word.
pub open spec fn permission_keyword(s: Seq<char>) -> Option<Permission> {
    if s == "none"@ {
        Some(Permission::NoAccess)
    } else if s == "read"@ {
        Some(Permission::Read)
    } else if s == "triage"@ {
        Some(Permission::Triage)
    } else if s == "write"@ {
        Some(Permission::Write)
    } else if s == "maintain"@ {
        Some(Permission::Maintain)
    } else if s == "admin"@ {
        Some(Permission::Admin)
    } else {
        None
    }
}

/// Recognizes a catalog permission keyword.
pub fn parse_permission_keyword(s: &str) -> (r: Option<Permission>)
    ensures
        r == permission_keyword(s@),
{
    if str_eq(s, "none") {
        Some(Permission::NoAccess)
    } else if str_eq(s, "read") {
        Some(Permission::Read)
    } else if str_eq(s, "triage") {
        Some(Permission::Triage)
    } else if str_eq(s, "write") {
        Some(Permission::Write)
    } else if str_eq(s, "maintain") {
        Some(Permission::Maintain)
    } else if str_eq(s, "admin") {
        Some(Permission::Admin)
    } else {
        None
    }
}

/// The permission a command requires when the catalog names none.
pub open spec fn spec_default_min_permission() -> Permission {
    Permission::Write
}

pub(crate) fn default_min_permission() -> (p: Permission)
    ensures
        p == spec_default_min_permission(),
{
    Permission::Write
}

pub(crate) fn default_true() -> (b: bool)
    ensures
        b,
{
    true
}

/// The view of an optional string.
pub open spec fn opt_view(o: Option<String>) -> Option<Seq<char>> {
    match o {
        Some(s) => Some(s@),
        None => None,
    }
}

/// The first index of `ps` whose key is `k`, or `-1`.
pub open spec fn key_index(ps: Seq<(String, String)>, k: Seq<char>) -> int
    decreases ps.len(),
{
    if ps.len() == 0 {
        -1
    } else {
        let r = key_index(ps.drop_last(), k);
        if r >= 0 {
            r
        } else if ps.last().0@ == k {
            ps.len() - 1
        } else {
            -1
        }
    }
}

/// The map a list of key/value pairs denotes (first occurrence of a key wins).
pub open spec fn pairs_map(ps: Seq<(String, String)>) -> Map<Seq<char>, Seq<char>> {
    Map::new(|k: Seq<char>| key_index(ps, k) >= 0, |k: Seq<char>| ps[key_index(ps, k)].1@)
}

/// No key occurs twice.
pub open spec fn keys_distinct(ps: Seq<(String, String)>) -> bool {
    forall|i: int, j: int| 0 <= i < j < ps.len() ==> ps[i].0@ != ps[j].0@
}

pub proof fn lemma_key_index_bounds(ps: Seq<(String, String)>, k: Seq<char>)
    ensures
        -1 <= key_index(ps, k) < ps.len(),
        key_index(ps, k) >= 0 ==> ps[key_index(ps, k)].0@ == k,
        key_index(ps, k) < 0 ==> forall|i: int| 0 <= i < ps.len() ==> ps[i].0@ != k,
        forall|i: int| 0 <= i < key_index(ps, k) ==> ps[i].0@ != k,
    decreases ps.len(),
{
    if ps.len() > 0 {
        lemma_key_index_bounds(ps.drop_last(), k);
        assert forall|i: int| 0 <= i < ps.len() - 1 implies ps[i] == ps.drop_last()[i] by {}
    }
}

pub proof fn lemma_key_index_same_keys(ps: Seq<(String, String)>, qs: Seq<(String, String)>, k: Seq<char>)
    requires
        ps.len() == qs.len(),
        forall|i: int| 0 <= i < ps.len() ==> ps[i].0@ == qs[i].0@,
    ensures
        key_index(ps, k) == key_index(qs, k),
    decreases ps.len(),
{
    if ps.len() > 0 {
        assert forall|i: int| 0 <= i < ps.len() - 1 implies ps.drop_last()[i].0@ == qs.drop_last()[i].0@ by {
            assert(ps.drop_last()[i] == ps[i]);
            assert(qs.drop_last()[i] == qs[i]);
        }
        lemma_key_index_same_keys(ps.drop_last(), qs.drop_last(), k);
    }
}

pub proof fn lemma_key_index_push(ps: Seq<(String, String)>, x: (String, String), k: Seq<char>)
    ensures
        key_index(ps.push(x), k) == if key_index(ps, k) >= 0 {
            key_index(ps, k)
        } else if x.0@ == k {
            ps.len() as int
        } else {
            -1
        },
{
    assert(ps.push(x).drop_last() == ps);
}

/// The order of keys: lexicographic by character code, the order `String`
/// compares in (UTF-8 keeps the order of code points byte by byte).
pub open spec fn key_less(a: Seq<char>, b: Seq<char>) -> bool
    decreases a.len(),
{
    if a.len() == 0 {
        b.len() > 0
    } else if b.len() == 0 {
        false
    } else if a[0] != b[0] {
        (a[0] as u32) < (b[0] as u32)
    } else {
        key_less(a.drop_first(), b.drop_first())
    }
}

/// Keys in strictly increasing order.
pub open spec fn keys_sorted(ps: Seq<(String, String)>) -> bool {
    forall|i: int, j: int| 0 <= i < j < ps.len() ==> key_less(#[trigger] ps[i].0@, #[trigger] ps[j].0@)
}

/// No key is less than itself, and of two keys at most one is less.
pub proof fn lemma_key_less_strict(a: Seq<char>, b: Seq<char>)
    ensures
        !key_less(a, a),
        key_less(a, b) ==> !key_less(b, a),
    decreases a.len(),
{
    if a.len() > 0 {
        lemma_key_less_strict(a.drop_first(), a.drop_first());
        if b.len() > 0 {
            lemma_key_less_strict(a.drop_first(), b.drop_first());
        }
    }
}

/// A character's code is the character's value.
proof fn lemma_char_code(c: char)
    ensures
        (c as u32) as int == c as int,
{
}

/// Of two different keys, one is less.
pub proof fn lemma_key_less_total(a: Seq<char>, b: Seq<char>)
    requires
        a != b,
    ensures
        key_less(a, b) || key_less(b, a),
    decreases a.len(),
{
    if a.len() == 0 && b.len() == 0 {
        assert(a =~= b);
    } else if a.len() > 0 && b.len() > 0 && a[0] == b[0] {
        if a.drop_first() == b.drop_first() {
            assert(a.drop_first().len() == a.len() - 1 && b.drop_first().len() == b.len() - 1);
            assert(a =~= b) by {
                assert forall|k: int| 0 <= k < a.len() implies a[k] == b[k] by {
                    if k > 0 {
                        assert(a[k] == a.drop_first()[k - 1]);
                        assert(b[k] == b.drop_first()[k - 1]);
                    }
                }
            }
        }
        lemma_key_less_total(a.drop_first(), b.drop_first());
    } else if a.len() > 0 && b.len() > 0 {
        lemma_char_code(a[0]);
        lemma_char_code(b[0]);
    }
}

/// The order of keys is transitive.
pub proof fn lemma_key_less_transitive(a: Seq<char>, b: Seq<char>, c: Seq<char>)
    requires
        key_less(a, b),
        key_less(b, c),
    ensures
        key_less(a, c),
    decreases a.len(),
{
    if a.len() > 0 && b.len() > 0 && c.len() > 0 && a[0] == b[0] && b[0] == c[0] {
        lemma_key_less_transitive(a.drop_first(), b.drop_first(), c.drop_first());
    }
}

/// Whether key `a` comes before key `b`.
pub fn key_before(a: &str, b: &str) -> (r: bool)
    ensures
        r == key_less(a@, b@),
{
    let va = crate::text::chars_of(a);
    let vb = crate::text::chars_of(b);
    let mut i: usize = 0;
    assert(va@.skip(0) =~= va@ && vb@.skip(0) =~= vb@);
    while i < va.len() && i < vb.len()
        invariant
            va@ == a@,
            vb@ == b@,
            0 <= i <= va@.len(),
            i <= vb@.len(),
            key_less(va@, vb@) == key_less(va@.skip(i as int), vb@.skip(i as int)),
        decreases va.len() - i,
    {
        let x = va[i];
        let y = vb[i];
        assert(va@.skip(i as int)[0] == x && vb@.skip(i as int)[0] == y);
        assert(va@.skip(i as int).len() > 0 && vb@.skip(i as int).len() > 0);
        if x != y {
            assert(key_less(va@.skip(i as int), vb@.skip(i as int)) == ((x as u32) < (y as u32)));
            return (x as u32) < (y as u32);
        }
        assert(va@.skip(i as int).drop_first() =~= va@.skip(i + 1));
        assert(vb@.skip(i as int).drop_first() =~= vb@.skip(i + 1));
        i = i + 1;
    }
    i >= va.len() && i < vb.len()
}

/// With keys distinct, the map holds exactly the pairs' keys, each with its
/// own value.
pub proof fn lemma_pairs_map_distinct(ps: Seq<(String, String)>)
    requires
        keys_distinct(ps),
    ensures
        forall|i: int| 0 <= i < ps.len() ==> {
            &&& pairs_map(ps).contains_key(#[trigger] ps[i].0@)
            &&& pairs_map(ps)[ps[i].0@] == ps[i].1@
        },
        forall|k: Seq<char>| #[trigger] pairs_map(ps).contains_key(k) ==> exists|i: int|
            0 <= i < ps.len() && ps[i].0@ == k,
{
    assert forall|i: int| 0 <= i < ps.len() implies key_index(ps, #[trigger] ps[i].0@) == i by {
        lemma_key_index_bounds(ps, ps[i].0@);
    }
    assert forall|k: Seq<char>| #[trigger] pairs_map(ps).contains_key(k) implies exists|i: int|
        0 <= i < ps.len() && ps[i].0@ == k by {
        lemma_key_index_bounds(ps, k);
    }
}

/// The `workflow_dispatch` inputs of a target: a map from input name to
/// value template. Each key occurs once, and the entries are kept in key
/// order, the order iteration and serialisation follow.
#[derive(Debug, PartialEq, Eq)]
pub struct InputMap {
    entries: Vec<(String, String)>,
}

impl View for InputMap {
    type V = Map<Seq<char>, Seq<char>>;

    closed spec fn view(&self) -> Map<Seq<char>, Seq<char>> {
        pairs_map(self.entries@)
    }
}

impl InputMap {
    #[verifier::type_invariant]
    closed spec fn inv(self) -> bool {
        &&& keys_distinct(self.entries@)
        &&& keys_sorted(self.entries@)
    }

    /// The key/value pairs, in iteration order, as views.
    pub closed spec fn pair_views(&self) -> Seq<(Seq<char>, Seq<char>)> {
        self.entries@.map_values(|p: (String, String)| (p.0@, p.1@))
    }

    /// An empty map.
    pub fn new() -> (m: InputMap)
        ensures
            m@ == Map::<Seq<char>, Seq<char>>::empty(),
            m.pair_views().len() == 0,
    {
        let m = InputMap { entries: Vec::new() };
        assert(m@ =~= Map::<Seq<char>, Seq<char>>::empty());
        m
    }

    /// The number of entries.
    pub fn len(&self) -> (n: usize)
        ensures
            n == self@.len(),
            n == self.pair_views().len(),
    {
        proof {
            use_type_invariant(self);
            self.lemma_view_len();
        }
        self.entries.len()
    }

    /// Whether the map has no entries.
    pub fn is_empty(&self) -> (b: bool)
        ensures
            b == (self@.len() == 0),
    {
        self.len() == 0
    }

    proof fn lemma_view_dom(&self)
        ensures
            forall|k: Seq<char>| #[trigger] self@.contains_key(k) <==> exists|i: int|
                0 <= i < self.entries@.len() && self.entries@[i].0@ == k,
    {
        assert forall|k: Seq<char>| #[trigger] self@.contains_key(k) <==> exists|i: int|
            0 <= i < self.entries@.len() && self.entries@[i].0@ == k by {
            lemma_key_index_bounds(self.entries@, k);
        }
    }

    proof fn lemma_view_len(&self)
        requires
            keys_distinct(self.entries@),
        ensures
            self@.len() == self.entries@.len(),
            self@.dom().finite(),
    {
        let ps = self.entries@;
        let ks = ps.map_values(|p: (String, String)| p.0@);
        assert forall|i: int, j: int| 0 <= i < j < ks.len() implies ks[i] != ks[j] by {}
        ks.unique_seq_to_set();
        self.lemma_view_dom();
        assert(self@.dom() =~= ks.to_set()) by {
            assert forall|k: Seq<char>| self@.dom().contains(k) implies ks.to_set().contains(k) by {
                let i = choose|i: int| 0 <= i < ps.len() && ps[i].0@ == k;
                assert(ks[i] == k);
            }
            assert forall|k: Seq<char>| ks.to_set().contains(k) implies self@.dom().contains(k) by {
                let i = choose|i: int| 0 <= i < ks.len() && ks[i] == k;
                assert(ps[i].0@ == k);
            }
        }
    }

    /// The value stored under `key`.
    pub fn get(&self, key: &str) -> (r: Option<&String>)
        ensures
            match r {
                Some(v) => self@.contains_key(key@) && v@ == self@[key@],
                None => !self@.contains_key(key@),
            },
    {
        let k = owned(key);
        let mut i: usize = 0;
        while i < self.entries.len()
            invariant
                0 <= i <= self.entries@.len(),
                k@ == key@,
                forall|j: int| 0 <= j < i ==> self.entries@[j].0@ != key@,
            decreases self.entries.len() - i,
        {
            if self.entries[i].0 == k {
                proof {
                    lemma_key_index_bounds(self.entries@, key@);
                }
                return Some(&self.entries[i].1);
            }
            i = i + 1;
        }
        proof {
            lemma_key_index_bounds(self.entries@, key@);
        }
        None
    }

    /// Stores `value` under `key`, returning the value it replaces. A new
    /// key goes in its place in key order.
    pub fn insert(&mut self, key: String, value: String) -> (r: Option<String>)
        ensures
            final(self)@ == old(self)@.insert(key@, value@),
            match r {
                Some(v) => old(self)@.contains_key(key@) && v@ == old(self)@[key@],
                None => !old(self)@.contains_key(key@),
            },
    {
        proof {
            use_type_invariant(&*self);
            lemma_key_index_bounds(self.entries@, key@);
        }
        let mut entries = Vec::new();
        std::mem::swap(&mut entries, &mut self.entries);
        let ghost ps = entries@;
        let mut i: usize = 0;
        while i < entries.len()
            invariant
                0 <= i <= entries@.len(),
                entries@ == ps,
                old(self).entries@ == ps,
                keys_distinct(ps),
                keys_sorted(ps),
                forall|j: int| 0 <= j < i ==> key_less(#[trigger] ps[j].0@, key@),
            ensures
                i < entries@.len() ==> !key_less(ps[i as int].0@, key@),
            decreases entries.len() - i,
        {
            if !key_before(entries[i].0.as_str(), key.as_str()) {
                break;
            }
            i = i + 1;
        }
        proof {
            assert forall|j: int| 0 <= j < i implies #[trigger] ps[j].0@ != key@ by {
                lemma_key_less_strict(key@, key@);
            }
        }
        if i < entries.len() && entries[i].0 == key {
            let ghost idx = i as int;
            assert(key_index(ps, key@) == idx) by {
                lemma_key_index_bounds(ps, key@);
            }
            let old_value = entries[i].1.clone();
            assert(old_value@ == ps[idx].1@);
            entries.set(i, (key, value));
            let ghost qs = entries@;
            proof {
                assert forall|j: int| 0 <= j < ps.len() implies ps[j].0@ == qs[j].0@ by {}
                assert forall|k: Seq<char>| #![auto] key_index(qs, k) == key_index(ps, k) by {
                    lemma_key_index_same_keys(ps, qs, k);
                }
                assert forall|k: Seq<char>| key_index(ps, k) >= 0 && k != key@ implies
                    #[trigger] qs[key_index(ps, k)] == ps[key_index(ps, k)] by {
                    lemma_key_index_bounds(ps, k);
                }
                assert(qs[idx].1@ == value@);
                assert(pairs_map(qs) =~= pairs_map(ps).insert(key@, value@));
                assert(keys_distinct(qs));
                assert(keys_sorted(qs));
            }
            self.entries = entries;
            return Some(old_value);
        }
        let ghost x = (key, value);
        proof {
            if i < ps.len() {
                lemma_key_less_total(ps[i as int].0@, key@);
            }
            assert forall|j: int| i <= j < ps.len() implies key_less(key@, #[trigger] ps[j].0@) by {
                if j > i {
                    lemma_key_less_transitive(key@, ps[i as int].0@, ps[j].0@);
                }
            }
            assert forall|j: int| 0 <= j < ps.len() implies #[trigger] ps[j].0@ != key@ by {
                if j >= i {
                    lemma_key_less_strict(key@, key@);
                }
            }
        }
        entries.insert(i, (key, value));
        proof {
            let qs = entries@;
            assert(qs == ps.insert(i as int, x));
            assert forall|a: int, b: int| 0 <= a < b < qs.len() implies key_less(
                #[trigger] qs[a].0@,
                #[trigger] qs[b].0@,
            ) by {
                if b < i {
                } else if a < i && b == i {
                } else if a < i {
                    assert(qs[b] == ps[b - 1]);
                } else if a == i {
                    assert(qs[b] == ps[b - 1]);
                } else {
                    assert(qs[a] == ps[a - 1] && qs[b] == ps[b - 1]);
                }
            }
            assert forall|a: int, b: int| 0 <= a < b < qs.len() implies qs[a].0@ != qs[b].0@ by {
                lemma_key_less_strict(qs[a].0@, qs[a].0@);
            }
            lemma_pairs_map_distinct(ps);
            lemma_pairs_map_distinct(qs);
            assert(!pairs_map(ps).contains_key(key@));
            assert forall|k: Seq<char>| #[trigger] pairs_map(qs).contains_key(k) <==> pairs_map(ps).insert(
                key@,
                value@,
            ).contains_key(k) by {
                if pairs_map(qs).contains_key(k) {
                    let j = choose|j: int| 0 <= j < qs.len() && qs[j].0@ == k;
                    if j < i {
                        assert(qs[j] == ps[j]);
                    } else if j > i {
                        assert(qs[j] == ps[j - 1]);
                    }
                }
                if pairs_map(ps).contains_key(k) {
                    let j = choose|j: int| 0 <= j < ps.len() && ps[j].0@ == k;
                    if j < i {
                        assert(qs[j] == ps[j]);
                    } else {
                        assert(qs[j + 1] == ps[j]);
                    }
                }
                if k == key@ {
                    assert(qs[i as int].0@ == key@);
                }
            }
            assert forall|k: Seq<char>| #[trigger] pairs_map(qs).contains_key(k) implies pairs_map(qs)[k]
                == pairs_map(ps).insert(key@, value@)[k] by {
                let j = choose|j: int| 0 <= j < qs.len() && qs[j].0@ == k;
                if j < i {
                    assert(qs[j] == ps[j]);
                } else if j > i {
                    assert(qs[j] == ps[j - 1]);
                }
            }
            assert(pairs_map(qs) =~= pairs_map(ps).insert(key@, value@));
        }
        self.entries = entries;
        None
    }
}

impl Clone for InputMap {
    fn clone(&self) -> (r: InputMap)
        ensures
            r@ == self@,
            r.pair_views() == self.pair_views(),
    {
        proof {
            use_type_invariant(self);
        }
        let mut entries: Vec<(String, String)> = Vec::new();
        let mut i: usize = 0;
        while i < self.entries.len()
            invariant
                0 <= i <= self.entries@.len(),
                entries@.len() == i,
                forall|j: int| 0 <= j < i ==> #[trigger] entries@[j].0@ == self.entries@[j].0@
                    && entries@[j].1@ == self.entries@[j].1@,
            decreases self.entries.len() - i,
        {
            let k = self.entries[i].0.clone();
            let v = self.entries[i].1.clone();
            entries.push((k, v));
            i = i + 1;
        }
        let ghost ps = self.entries@;
        let ghost qs = entries@;
        proof {
            assert forall|k: Seq<char>| #![auto] key_index(qs, k) == key_index(ps, k) by {
                lemma_key_index_same_keys(qs, ps, k);
            }
            assert forall|k: Seq<char>| key_index(ps, k) >= 0 implies
                #[trigger] qs[key_index(ps, k)].1@ == ps[key_index(ps, k)].1@ by {
                lemma_key_index_bounds(ps, k);
            }
            assert(keys_distinct(qs));
        }
        let r = InputMap { entries };
        assert(r@ =~= self@);
        assert(r.pair_views() =~= self.pair_views());
        r
    }
}

impl InputMap {
    /// The key/value pairs in iteration order: each key of the map exactly
    /// once, with its value, in key order.
    pub fn pairs(&self) -> (r: &[(String, String)])
        ensures
            r@.map_values(|p: (String, String)| (p.0@, p.1@)) == self.pair_views(),
            self.pair_views().len() == self@.len(),
            forall|i: int, j: int| 0 <= i < j < self.pair_views().len()
                ==> key_less(#[trigger] self.pair_views()[i].0, #[trigger] self.pair_views()[j].0),
            forall|i: int, j: int| 0 <= i < j < self.pair_views().len()
                ==> self.pair_views()[i].0 != self.pair_views()[j].0,
            forall|i: int| 0 <= i < self.pair_views().len() ==> {
                &&& self@.contains_key(#[trigger] self.pair_views()[i].0)
                &&& self@[self.pair_views()[i].0] == self.pair_views()[i].1
            },
            forall|k: Seq<char>| #[trigger] self@.contains_key(k) ==> exists|i: int|
                0 <= i < self.pair_views().len() && self.pair_views()[i].0 == k,
    {
        proof {
            use_type_invariant(self);
            self.lemma_view_len();
            self.lemma_view_dom();
            let ps = self.entries@;
            assert forall|i: int| 0 <= i < ps.len() implies key_index(ps, #[trigger] ps[i].0@) == i by {
                lemma_key_index_bounds(ps, ps[i].0@);
            }
            assert forall|k: Seq<char>| #[trigger] self@.contains_key(k) implies exists|i: int|
                0 <= i < self.pair_views().len() && self.pair_views()[i].0 == k by {
                let i = choose|i: int| 0 <= i < ps.len() && ps[i].0@ == k;
                assert(self.pair_views()[i].0 == k);
            }
        }
        self.entries.as_slice()
    }

    /// A map with the same keys, in the same order, holding `values[i]` in
    /// place of the `i`-th value.
    pub fn with_values(&self, values: Vec<String>) -> (r: InputMap)
        requires
            values@.len() == self.pair_views().len(),
        ensures
            r.pair_views().len() == self.pair_views().len(),
            forall|i: int| 0 <= i < values@.len() ==> #[trigger] r.pair_views()[i] == (
                self.pair_views()[i].0,
                values@[i]@,
            ),
            r@.dom() == self@.dom(),
    {
        proof {
            use_type_invariant(self);
        }
        let mut entries: Vec<(String, String)> = Vec::new();
        let mut i: usize = 0;
        while i < self.entries.len()
            invariant
                0 <= i <= self.entries@.len(),
                values@.len() == self.entries@.len(),
                entries@.len() == i,
                forall|j: int| 0 <= j < i ==> #[trigger] entries@[j].0@ == self.entries@[j].0@
                    && entries@[j].1@ == values@[j]@,
            decreases self.entries.len() - i,
        {
            let k = self.entries[i].0.clone();
            let v = values[i].clone();
            entries.push((k, v));
            i = i + 1;
        }
        let ghost ps = self.entries@;
        let ghost qs = entries@;
        proof {
            assert forall|k: Seq<char>| #![auto] key_index(qs, k) == key_index(ps, k) by {
                lemma_key_index_same_keys(qs, ps, k);
            }
            assert(keys_distinct(qs));
        }
        let r = InputMap { entries };
        assert(r@.dom() =~= self@.dom());
        r
    }
}

/// The view of a [`DispatchTarget`].
pub enum TargetView {
    Label { name: Seq<char> },
    WorkflowDispatch {
        workflow: Seq<char>,
        git_ref: Option<Seq<char>>,
        inputs: Map<Seq<char>, Seq<char>>,
    },
    RepositoryDispatch { event_type: Seq<char>, repo: Option<Seq<char>> },
}

/// Where a trusted knock is dispatched.
#[derive(Debug, Clone, PartialEq, Eq)]
pub enum DispatchTarget {
    /// Remove-then-add a label on the PR/issue: the idempotent relabel that
    /// re-fires a `pull_request: [labeled]`-gated pipeline even when the
    /// label is already present.
    Label { name: String },
    /// Fire a `workflow_dispatch` against a workflow file on the resolved
    /// branch ref. `git_ref` and input values may reference `$checkout-ref`,
    /// `$branch-ref`, `$base-ref`, `$pr-author`, or a positional capture
    /// `$1`..`$9`, substituted by the interpreter.
    WorkflowDispatch { workflow: String, git_ref: Option<String>, inputs: InputMap },
    /// Fire a `repository_dispatch` event, optionally against another repo
    /// (`owner/repo`); defaults to the current repo.
    RepositoryDispatch { event_type: String, repo: Option<String> },
}

impl View for DispatchTarget {
    type V = TargetView;

    open spec fn view(&self) -> TargetView {
        match self {
            DispatchTarget::Label { name } => TargetView::Label { name: name@ },
            DispatchTarget::WorkflowDispatch { workflow, git_ref, inputs } => TargetView::WorkflowDispatch {
                workflow: workflow@,
                git_ref: opt_view(*git_ref),
                inputs: inputs@,
            },
            DispatchTarget::RepositoryDispatch { event_type, repo } => TargetView::RepositoryDispatch {
                event_type: event_type@,
                repo: opt_view(*repo),
            },
        }
    }
}

/// The view of a [`CommentCommandSpec`].
pub struct CommandView {
    pub name: Seq<char>,
    pub trigger: Seq<char>,
    pub min_permission: Permission,
    pub trust_pr_author: bool,
    pub allowlist: Seq<Seq<char>>,
    pub target: TargetView,
}

/// One registered `/command`: the unit a consuming repo authors.
#[derive(Debug, Clone, PartialEq, Eq)]
pub struct CommentCommandSpec {
    /// The command's name, for output only (`"test"`, `"deploy"`).
    pub name: String,
    /// The literal prefix a comment must start with, e.g. `"/test"`, followed
    /// by whitespace or the end of the comment: `"/test"` matches `/test` and
    /// `/test staging` but not `/testing`.
    pub trigger: String,
    /// The minimum repo permission a commenter must hold, unless trusted as
    /// the PR author or through `allowlist`.
    pub min_permission: Permission,
    /// When true (the default), the PR's own author is always trusted.
    pub trust_pr_author: bool,
    /// Logins trusted regardless of `min_permission` or PR authorship.
    pub allowlist: Vec<String>,
    /// What happens when a trusted knock matches.
    pub target: DispatchTarget,
}

/// The views of a list of strings.
pub open spec fn strings_view(v: Seq<String>) -> Seq<Seq<char>> {
    v.map_values(|s: String| s@)
}

impl View for CommentCommandSpec {
    type V = CommandView;

    open spec fn view(&self) -> CommandView {
        CommandView {
            name: self.name@,
            trigger: self.trigger@,
            min_permission: self.min_permission,
            trust_pr_author: self.trust_pr_author,
            allowlist: strings_view(self.allowlist@),
            target: self.target@,
        }
    }
}

/// The full registered-command table for a repo.
#[derive(Debug, Clone, PartialEq, Eq)]
pub struct CatalogSpec {
    pub commands: Vec<CommentCommandSpec>,
}

impl View for CatalogSpec {
    type V = Seq<CommandView>;

    open spec fn view(&self) -> Seq<CommandView> {
        self.commands@.map_values(|c: CommentCommandSpec| c@)
    }
}

impl CatalogSpec {
    /// Build a single-command catalog inline: the degenerate case reached
    /// through plain CLI flags, with no catalog file to author.
    pub fn single(command: CommentCommandSpec) -> (c: CatalogSpec)
        ensures
            c.commands@ == seq![command],
            c@ == seq![command@],
    {
        let c = CatalogSpec { commands: vec![command] };
        assert(c@ =~= seq![command@]);
        c
    }
}

impl Default for CatalogSpec {
    fn default() -> (c: CatalogSpec)
        ensures
            c.commands@.len() == 0,
    {
        CatalogSpec { commands: Vec::new() }
    }
}


} // verus!
