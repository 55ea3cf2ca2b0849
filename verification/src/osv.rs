//! Reading OSV.dev advisory records: the base severity an advisory gives,
//! the lowest patched version above the resolved one, and which advisories
//! to fetch in detail after a batch query. The HTTP exchange itself is done
//! by the caller.

use vstd::prelude::*;
use crate::models::{PackageId, Vulnerability};
use crate::text::{chars_of, views, is_digit, digit_value, decimal_value, split_on, split_chars, next_index, find_char, lex_le, lex_le_chars, lemma_lex_le_total, lemma_lex_le_transitive, lemma_lex_le_reflexive, lemma_lex_le_antisymmetric};

verus! {

/// One entry of an advisory's `severity` list.
pub struct OsvSeverity {
    /// The scoring system, e.g. `CVSS_V3`.
    pub kind: String,
    /// The score in that system (for CVSS, a vector string).
    pub score: String,
}

/// One entry of an advisory's `affected` list: the package it names and
/// every version that its ranges list as fixing the advisory.
pub struct OsvAffected {
    pub package_name: String,
    pub fixed: Vec<String>,
}

/// An advisory record as far as the scan reads it.
pub struct OsvVulnDetail {
    pub id: String,
    pub summary: Option<String>,
    pub severity: Vec<OsvSeverity>,
    /// The `severity` string of the record's `database_specific` object.
    pub database_severity: Option<String>,
    pub affected: Vec<OsvAffected>,
}

/// The reading of a version string up to some point: the components
/// completed so far, the value of the component being read, and whether
/// that component has a digit yet. `None` once the text stops being a
/// version: a character other than a digit or a dot, an empty component,
/// or a component too large for `u64`.
pub open spec fn version_scan(s: Seq<char>) -> Option<(Seq<nat>, nat, bool)>
    decreases s.len(),
{
    if s.len() == 0 {
        Some((Seq::empty(), 0, false))
    } else {
        match version_scan(s.drop_last()) {
            None => None,
            Some((parts, cur, seen)) => {
                let c = s.last();
                if c == '.' {
                    if seen {
                        Some((parts.push(cur), 0, false))
                    } else {
                        None
                    }
                } else if is_digit(c) && cur * 10 + digit_value(c) <= u64::MAX {
                    Some((parts, cur * 10 + digit_value(c), true))
                } else {
                    None
                }
            },
        }
    }
}

/// The numeric components of a version core of the form `1.2.3` (any
/// number of dot-separated decimal components, each fitting in `u64`);
/// `None` for any other text.
pub open spec fn version_parts(s: Seq<char>) -> Option<Seq<nat>> {
    match version_scan(s) {
        Some((parts, cur, true)) => Some(parts.push(cur)),
        _ => None,
    }
}

/// The `i`-th component of a version, missing components counting as 0.
pub open spec fn part_at(v: Seq<nat>, i: int) -> nat {
    if 0 <= i < v.len() {
        v[i]
    } else {
        0
    }
}

/// Whether version `a` orders strictly before `b`: at the first position
/// where they differ (missing components counting as 0) `a` is smaller.
pub open spec fn version_lt(a: Seq<nat>, b: Seq<nat>) -> bool {
    exists|k: int|
        0 <= k && part_at(a, k) < part_at(b, k) && (forall|j: int| 0 <= j < k ==> part_at(a, j) == part_at(b, j))
}

/// Version components as numbers.
pub open spec fn nat_parts(v: Seq<u64>) -> Seq<nat> {
    v.map_values(|x: u64| x as nat)
}

/// Reads the numeric core `cs[..end]` of a version into its components.
fn parse_core(cs: &Vec<char>, end: usize) -> (res: Option<Vec<u64>>)
    requires
        end <= cs@.len(),
    ensures
        match version_parts(cs@.take(end as int)) {
            Some(parts) => res matches Some(v) && nat_parts(v@) == parts,
            None => res is None,
        },
{
    let ghost s = cs@.take(end as int);
    let mut parts: Vec<u64> = Vec::new();
    let mut cur: u64 = 0;
    let mut seen = false;
    let mut i: usize = 0;
    assert(s.take(0) =~= Seq::<char>::empty());
    while i < end
        invariant
            i <= end <= cs@.len(),
            s == cs@.take(end as int),
            version_scan(s.take(i as int)) matches Some((ps, c, sn)) && c == cur as nat && sn == seen
                && ps.len() == parts@.len() && forall|j: int| 0 <= j < ps.len() ==> ps[j] == parts@[j] as nat,
        decreases end - i,
    {
        let c = cs[i];
        assert(s.take(i + 1).drop_last() =~= s.take(i as int));
        assert(s.take(i + 1).last() == c);
        if c == '.' {
            if !seen {
                assert(version_scan(s.take(i + 1)) is None);
                proof {
                    lemma_scan_stays_none(s, i as int + 1);
                }
                return None;
            }
            parts.push(cur);
            cur = 0;
            seen = false;
        } else if '0' <= c && c <= '9' {
            let d = (c as u32 - '0' as u32) as u64;
            if cur > (u64::MAX - d) / 10 {
                proof {
                    assert(cur * 10 + d > u64::MAX) by (nonlinear_arith)
                        requires
                            cur > (u64::MAX - d) / 10,
                            d <= 9,
                    ;
                    assert(version_scan(s.take(i + 1)) is None);
                    lemma_scan_stays_none(s, i as int + 1);
                }
                return None;
            }
            proof {
                assert(cur * 10 + d <= u64::MAX) by (nonlinear_arith)
                    requires
                        cur <= (u64::MAX - d) / 10,
                        d <= 9,
                ;
            }
            cur = cur * 10 + d;
            seen = true;
        } else {
            assert(version_scan(s.take(i + 1)) is None);
            proof {
                lemma_scan_stays_none(s, i as int + 1);
            }
            return None;
        }
        i = i + 1;
    }
    assert(s.take(i as int) =~= s);
    if !seen {
        return None;
    }
    parts.push(cur);
    proof {
        let ps = version_parts(s)->0;
        assert(nat_parts(parts@) =~= ps);
    }
    Some(parts)
}

proof fn lemma_scan_stays_none(s: Seq<char>, k: int)
    requires
        0 <= k <= s.len(),
        version_scan(s.take(k)) is None,
    ensures
        version_scan(s) is None,
    decreases s.len() - k,
{
    if k < s.len() {
        assert(s.take(k + 1).drop_last() =~= s.take(k));
        lemma_scan_stays_none(s, k + 1);
    } else {
        assert(s.take(k) =~= s);
    }
}

/// Decides [`version_lt`].
pub fn core_less(a: &Vec<u64>, b: &Vec<u64>) -> (res: bool)
    ensures
        res == version_lt(nat_parts(a@), nat_parts(b@)),
{
    let ghost na = nat_parts(a@);
    let ghost nb = nat_parts(b@);
    let n = if a.len() > b.len() { a.len() } else { b.len() };
    let mut i: usize = 0;
    while i < n
        invariant
            i <= n,
            n == a@.len() || n == b@.len(),
            n >= a@.len(),
            n >= b@.len(),
            na == nat_parts(a@),
            nb == nat_parts(b@),
            forall|j: int| 0 <= j < i ==> part_at(na, j) == part_at(nb, j),
        decreases n - i,
    {
        let x: u64 = if i < a.len() { a[i] } else { 0 };
        let y: u64 = if i < b.len() { b[i] } else { 0 };
        assert(part_at(na, i as int) == x as nat);
        assert(part_at(nb, i as int) == y as nat);
        if x != y {
            if x < y {
                assert(version_lt(na, nb));
            } else {
                assert forall|k: int| 0 <= k && part_at(na, k) < part_at(nb, k) implies !(forall|j: int|
                    0 <= j < k ==> part_at(na, j) == part_at(nb, j)) by {
                    assert(k != i);
                    if k < i {
                    } else {
                        assert(0 <= i < k);
                    }
                }
            }
            return x < y;
        }
        i = i + 1;
    }
    assert forall|k: int| 0 <= k && part_at(na, k) < part_at(nb, k) implies !(forall|j: int|
        0 <= j < k ==> part_at(na, j) == part_at(nb, j)) by {
        if k < n {
        } else {
            assert(part_at(na, k) == 0);
        }
    }
    false
}

proof fn lemma_version_lt_transitive(a: Seq<nat>, b: Seq<nat>, c: Seq<nat>)
    requires
        version_lt(a, b),
        version_lt(b, c),
    ensures
        version_lt(a, c),
{
    let k1 = choose|k: int|
        0 <= k && part_at(a, k) < part_at(b, k) && (forall|j: int| 0 <= j < k ==> part_at(a, j) == part_at(b, j));
    let k2 = choose|k: int|
        0 <= k && part_at(b, k) < part_at(c, k) && (forall|j: int| 0 <= j < k ==> part_at(b, j) == part_at(c, j));
    let k = if k1 < k2 { k1 } else { k2 };
    assert(part_at(a, k) < part_at(c, k));
    assert(forall|j: int| 0 <= j < k ==> part_at(a, j) == part_at(c, j));
}

proof fn lemma_version_lt_irreflexive(a: Seq<nat>)
    ensures
        !version_lt(a, a),
{
}

/// A pre-release identifier: numeric, or made of other characters.
pub enum PreId {
    Num(nat),
    Alpha(Seq<char>),
}

/// A version as semantic versioning orders it: the numeric core and the
/// pre-release identifiers (empty for a release). Build metadata takes no
/// part in the order and is not kept.
pub struct SemVer {
    pub core: Seq<nat>,
    pub pre: Seq<PreId>,
}

/// A pre-release identifier as written: all digits is numeric (when it
/// fits in `u64`), anything else non-empty is alphanumeric; an empty one
/// is not an identifier.
pub open spec fn pre_ident(piece: Seq<char>) -> Option<PreId> {
    if piece.len() == 0 {
        None
    } else if forall|i: int| 0 <= i < piece.len() ==> is_digit(#[trigger] piece[i]) {
        if decimal_value(piece) <= u64::MAX {
            Some(PreId::Num(decimal_value(piece)))
        } else {
            None
        }
    } else {
        Some(PreId::Alpha(piece))
    }
}

/// The identifiers of the dot-separated pieces of a pre-release, if every
/// piece is one.
pub open spec fn pre_idents(pieces: Seq<Seq<char>>) -> Option<Seq<PreId>>
    decreases pieces.len(),
{
    if pieces.len() == 0 {
        Some(Seq::empty())
    } else {
        match (pre_idents(pieces.drop_last()), pre_ident(pieces.last())) {
            (Some(ids), Some(id)) => Some(ids.push(id)),
            _ => None,
        }
    }
}

/// A version string read by semantic versioning: everything from the first
/// `+` on is build metadata and is dropped; what comes before the first
/// `-` of the rest is the numeric core, and what follows it the
/// dot-separated pre-release identifiers. `None` when the core or an
/// identifier is malformed.
pub open spec fn semver_parts(s: Seq<char>) -> Option<SemVer> {
    let main = s.take(next_index(s, '+', 0));
    let d = next_index(main, '-', 0);
    match version_parts(main.take(d)) {
        None => None,
        Some(core) => if d < main.len() {
            match pre_idents(split_on(main.skip(d + 1), '.')) {
                Some(pre) => Some(SemVer { core, pre }),
                None => None,
            }
        } else {
            Some(SemVer { core, pre: Seq::empty() })
        },
    }
}

/// Identifier order: numeric ones by value, below every alphanumeric
/// one; alphanumeric ones by character code, a proper prefix first.
pub open spec fn id_lt(a: PreId, b: PreId) -> bool {
    match (a, b) {
        (PreId::Num(x), PreId::Num(y)) => x < y,
        (PreId::Num(_), PreId::Alpha(_)) => true,
        (PreId::Alpha(_), PreId::Num(_)) => false,
        (PreId::Alpha(x), PreId::Alpha(y)) => !lex_le(y, x),
    }
}

/// `a` is below `b` at position `k`: they agree before `k`, and there `a`
/// has the smaller identifier or has ended while `b` goes on.
pub open spec fn pre_lt_at(a: Seq<PreId>, b: Seq<PreId>, k: int) -> bool {
    0 <= k <= a.len() && k <= b.len() && a.take(k) == b.take(k) && ((k < a.len() && k < b.len() && id_lt(
        a[k],
        b[k],
    )) || (k == a.len() && k < b.len()))
}

/// Pre-release order: at the first position where the identifiers differ,
/// the smaller one; if one list is a proper prefix of the other, it is
/// lower.
pub open spec fn pre_lt(a: Seq<PreId>, b: Seq<PreId>) -> bool {
    exists|k: int| #[trigger] pre_lt_at(a, b, k)
}

/// Whether two cores are equal, missing components counting as 0.
pub open spec fn core_eq(a: Seq<nat>, b: Seq<nat>) -> bool {
    forall|k: int| #[trigger] part_at(a, k) == part_at(b, k)
}

/// Semantic-versioning precedence: by core; for equal cores a pre-release
/// is below the release, and two pre-releases go by [`pre_lt`].
pub open spec fn semver_lt(a: SemVer, b: SemVer) -> bool {
    version_lt(a.core, b.core) || (core_eq(a.core, b.core) && a.pre.len() > 0 && (b.pre.len() == 0 || pre_lt(
        a.pre,
        b.pre,
    )))
}

proof fn lemma_id_lt_irreflexive(a: PreId)
    ensures
        !id_lt(a, a),
{
    if let PreId::Alpha(x) = a {
        lemma_lex_le_reflexive(x);
    }
}

proof fn lemma_id_lt_transitive(a: PreId, b: PreId, c: PreId)
    requires
        id_lt(a, b),
        id_lt(b, c),
    ensures
        id_lt(a, c),
{
    if let (PreId::Alpha(x), PreId::Alpha(y), PreId::Alpha(z)) = (a, b, c) {
        if lex_le(z, x) {
            lemma_lex_le_total(x, y);
            lemma_lex_le_transitive(z, x, y);
        }
    }
}

proof fn lemma_pre_lt_irreflexive(a: Seq<PreId>)
    ensures
        !pre_lt(a, a),
{
    if pre_lt(a, a) {
        let k = choose|k: int| #[trigger] pre_lt_at(a, a, k);
        if k < a.len() {
            lemma_id_lt_irreflexive(a[k]);
        }
    }
}

proof fn lemma_pre_lt_transitive(a: Seq<PreId>, b: Seq<PreId>, c: Seq<PreId>)
    requires
        pre_lt(a, b),
        pre_lt(b, c),
    ensures
        pre_lt(a, c),
{
    let k1 = choose|k: int| #[trigger] pre_lt_at(a, b, k);
    let k2 = choose|k: int| #[trigger] pre_lt_at(b, c, k);
    let k = if k1 < k2 { k1 } else { k2 };
    assert(a.take(k) =~= a.take(k1).take(k));
    assert(b.take(k) =~= b.take(k1).take(k));
    assert(b.take(k) =~= b.take(k2).take(k));
    assert(c.take(k) =~= c.take(k2).take(k));
    assert(a.take(k) == c.take(k));
    if k1 < k2 {
        assert(b.take(k2)[k1] == c.take(k2)[k1]);
        assert(b[k1] == c[k1]);
    } else if k2 < k1 {
        assert(a.take(k1)[k2] == b.take(k1)[k2]);
        assert(a[k2] == b[k2]);
    } else {
        if k < a.len() && k < b.len() && id_lt(a[k], b[k]) {
            lemma_id_lt_transitive(a[k], b[k], c[k]);
        }
    }
    assert(pre_lt_at(a, c, k));
}

proof fn lemma_core_facts(a: Seq<nat>, b: Seq<nat>, c: Seq<nat>)
    ensures
        version_lt(a, b) && core_eq(b, c) ==> version_lt(a, c),
        core_eq(a, b) && version_lt(b, c) ==> version_lt(a, c),
        core_eq(a, b) && core_eq(b, c) ==> core_eq(a, c),
        core_eq(a, a),
{
    if version_lt(a, b) && core_eq(b, c) {
        let k = choose|k: int|
            0 <= k && part_at(a, k) < part_at(b, k) && (forall|j: int| 0 <= j < k ==> part_at(a, j) == part_at(b, j));
        assert(part_at(b, k) == part_at(c, k));
        assert forall|j: int| 0 <= j < k implies part_at(a, j) == part_at(c, j) by {
            assert(part_at(b, j) == part_at(c, j));
        }
    }
    if core_eq(a, b) && version_lt(b, c) {
        let k = choose|k: int|
            0 <= k && part_at(b, k) < part_at(c, k) && (forall|j: int| 0 <= j < k ==> part_at(b, j) == part_at(c, j));
        assert(part_at(a, k) == part_at(b, k));
        assert forall|j: int| 0 <= j < k implies part_at(a, j) == part_at(c, j) by {
            assert(part_at(a, j) == part_at(b, j));
        }
    }
    if core_eq(a, b) && core_eq(b, c) {
        assert forall|k: int| #[trigger] part_at(a, k) == part_at(c, k) by {
            assert(part_at(a, k) == part_at(b, k));
            assert(part_at(b, k) == part_at(c, k));
        }
    }
}

proof fn lemma_semver_lt_irreflexive(a: SemVer)
    ensures
        !semver_lt(a, a),
{
    lemma_version_lt_irreflexive(a.core);
    lemma_pre_lt_irreflexive(a.pre);
}

proof fn lemma_semver_lt_transitive(a: SemVer, b: SemVer, c: SemVer)
    requires
        semver_lt(a, b),
        semver_lt(b, c),
    ensures
        semver_lt(a, c),
{
    lemma_core_facts(a.core, b.core, c.core);
    if version_lt(a.core, b.core) && version_lt(b.core, c.core) {
        lemma_version_lt_transitive(a.core, b.core, c.core);
    } else if !version_lt(a.core, b.core) && !version_lt(b.core, c.core) {
        if c.pre.len() > 0 {
            lemma_pre_lt_transitive(a.pre, b.pre, c.pre);
        }
    }
}

/// Every fixed version that the advisory lists for the package `name`, in
/// the order of its `affected` entries and of their events.
pub open spec fn fixed_candidates(affected: Seq<OsvAffected>, name: Seq<char>) -> Seq<Seq<char>>
    decreases affected.len(),
{
    if affected.len() == 0 {
        Seq::empty()
    } else {
        fixed_candidates(affected.drop_last(), name) + if affected.last().package_name@ == name {
            views(affected.last().fixed@)
        } else {
            Seq::empty()
        }
    }
}

/// Whether `v` is a version that orders above `current`.
pub open spec fn is_upgrade(current: SemVer, v: Seq<char>) -> bool {
    semver_parts(v) matches Some(p) && semver_lt(current, p)
}

/// The lowest of the candidates that order above `current`; of equal
/// versions the first listed.
pub open spec fn lowest_upgrade(cands: Seq<Seq<char>>, current: SemVer) -> Option<Seq<char>>
    decreases cands.len(),
{
    if cands.len() == 0 {
        None
    } else {
        let best = lowest_upgrade(cands.drop_last(), current);
        let c = cands.last();
        if is_upgrade(current, c) && (best matches Some(b) ==> semver_lt(
            semver_parts(c)->0,
            semver_parts(b)->0,
        )) {
            Some(c)
        } else {
            best
        }
    }
}

/// The patched version to bump `package` to: the lowest fixed version the
/// advisory lists for it above its resolved version. `None` when there is
/// none, or when the resolved version is not a version.
pub open spec fn fixed_version_for(affected: Seq<OsvAffected>, package: PackageId) -> Option<Seq<char>> {
    match semver_parts(package.version@) {
        None => None,
        Some(current) => lowest_upgrade(fixed_candidates(affected, package.name@), current),
    }
}

/// The lowest upgrade is one of the candidates, orders above the current
/// version, and no candidate above the current version orders below it;
/// there is none only when no candidate orders above the current version.
pub proof fn lemma_lowest_upgrade(cands: Seq<Seq<char>>, current: SemVer)
    ensures
        match lowest_upgrade(cands, current) {
            Some(c) => cands.contains(c) && is_upgrade(current, c) && forall|d: Seq<char>|
                #![trigger cands.contains(d)]
                cands.contains(d) && is_upgrade(current, d) ==> !semver_lt(
                    semver_parts(d)->0,
                    semver_parts(c)->0,
                ),
            None => forall|d: Seq<char>| #![trigger cands.contains(d)] cands.contains(d) ==> !is_upgrade(current, d),
        },
    decreases cands.len(),
{
    if cands.len() > 0 {
        let prefix = cands.drop_last();
        lemma_lowest_upgrade(prefix, current);
        let c = cands.last();
        assert forall|d: Seq<char>| cands.contains(d) implies prefix.contains(d) || d == c by {
            let i = choose|i: int| 0 <= i < cands.len() && cands[i] == d;
            if i < cands.len() - 1 {
                assert(prefix[i] == d);
            }
        }
        assert(cands[cands.len() - 1] == c);
        match lowest_upgrade(prefix, current) {
            Some(b) => {
                assert(prefix.contains(b));
                let k = choose|i: int| 0 <= i < prefix.len() && prefix[i] == b;
                assert(cands[k] == b);
                if is_upgrade(current, c) && semver_lt(semver_parts(c)->0, semver_parts(b)->0) {
                    assert forall|d: Seq<char>| #![trigger cands.contains(d)]
                        cands.contains(d) && is_upgrade(current, d) implies !semver_lt(
                        semver_parts(d)->0,
                        semver_parts(c)->0,
                    ) by {
                        if d == c {
                            lemma_semver_lt_irreflexive(semver_parts(c)->0);
                        } else {
                            assert(prefix.contains(d));
                            if semver_lt(semver_parts(d)->0, semver_parts(c)->0) {
                                lemma_semver_lt_transitive(
                                    semver_parts(d)->0,
                                    semver_parts(c)->0,
                                    semver_parts(b)->0,
                                );
                            }
                        }
                    }
                } else {
                    assert forall|d: Seq<char>| #![trigger cands.contains(d)]
                        cands.contains(d) && is_upgrade(current, d) implies !semver_lt(
                        semver_parts(d)->0,
                        semver_parts(b)->0,
                    ) by {
                        if d != c {
                            assert(prefix.contains(d));
                        }
                    }
                }
            },
            None => {
                if is_upgrade(current, c) {
                    assert forall|d: Seq<char>| #![trigger cands.contains(d)]
                        cands.contains(d) && is_upgrade(current, d) implies !semver_lt(
                        semver_parts(d)->0,
                        semver_parts(c)->0,
                    ) by {
                        if d == c {
                            lemma_semver_lt_irreflexive(semver_parts(c)->0);
                        } else {
                            assert(prefix.contains(d));
                        }
                    }
                } else {
                    assert forall|d: Seq<char>| #![trigger cands.contains(d)] cands.contains(d) implies !is_upgrade(
                        current,
                        d,
                    ) by {
                        if d != c {
                            assert(prefix.contains(d));
                        }
                    }
                }
            },
        }
    }
}

/// A pre-release identifier.
#[derive(Debug, PartialEq, Eq)]
pub enum PreIdent {
    Numeric(u64),
    Alpha(Vec<char>),
}

/// A version read by semantic versioning: its numeric core and its
/// pre-release identifiers (none for a release).
#[derive(Debug, PartialEq, Eq)]
pub struct Version {
    pub core: Vec<u64>,
    pub pre: Vec<PreIdent>,
}

/// A pre-release identifier as a value.
pub open spec fn pre_ident_view(p: PreIdent) -> PreId {
    match p {
        PreIdent::Numeric(n) => PreId::Num(n as nat),
        PreIdent::Alpha(cs) => PreId::Alpha(cs@),
    }
}

impl View for Version {
    type V = SemVer;

    open spec fn view(&self) -> SemVer {
        SemVer { core: nat_parts(self.core@), pre: self.pre@.map_values(|p: PreIdent| pre_ident_view(p)) }
    }
}

proof fn lemma_decimal_value_prefix(s: Seq<char>, k: int)
    requires
        0 <= k <= s.len(),
    ensures
        decimal_value(s.take(k)) <= decimal_value(s),
    decreases s.len() - k,
{
    if k < s.len() {
        lemma_decimal_value_prefix(s, k + 1);
        assert(s.take(k + 1).drop_last() =~= s.take(k));
    } else {
        assert(s.take(k) =~= s);
    }
}

/// Reads one pre-release identifier.
fn parse_pre_ident(piece: &Vec<char>) -> (res: Option<PreIdent>)
    ensures
        match pre_ident(piece@) {
            Some(id) => res matches Some(r) && pre_ident_view(r) == id,
            None => res is None,
        },
{
    if piece.len() == 0 {
        return None;
    }
    let mut all_digits = true;
    let mut i: usize = 0;
    while i < piece.len()
        invariant
            i <= piece@.len(),
            all_digits == forall|j: int| 0 <= j < i ==> is_digit(#[trigger] piece@[j]),
        decreases piece@.len() - i,
    {
        if !('0' <= piece[i] && piece[i] <= '9') {
            all_digits = false;
        }
        i = i + 1;
    }
    if !all_digits {
        let mut copy: Vec<char> = Vec::new();
        let mut k: usize = 0;
        while k < piece.len()
            invariant
                k <= piece@.len(),
                copy@ == piece@.take(k as int),
            decreases piece@.len() - k,
        {
            copy.push(piece[k]);
            assert(piece@.take(k + 1) =~= piece@.take(k as int).push(piece@[k as int]));
            k = k + 1;
        }
        assert(piece@.take(k as int) =~= piece@);
        return Some(PreIdent::Alpha(copy));
    }
    let mut v: u64 = 0;
    let mut k: usize = 0;
    assert(piece@.take(0) =~= Seq::<char>::empty());
    while k < piece.len()
        invariant
            k <= piece@.len(),
            forall|j: int| 0 <= j < piece@.len() ==> is_digit(#[trigger] piece@[j]),
            v as nat == decimal_value(piece@.take(k as int)),
        decreases piece@.len() - k,
    {
        let c = piece[k];
        assert(is_digit(piece@[k as int]));
        let d = (c as u32 - '0' as u32) as u64;
        assert(piece@.take(k + 1).drop_last() =~= piece@.take(k as int));
        assert(piece@.take(k + 1).last() == c);
        if v > (u64::MAX - d) / 10 {
            proof {
                assert(v * 10 + d > u64::MAX) by (nonlinear_arith)
                    requires
                        v > (u64::MAX - d) / 10,
                        d <= 9,
                ;
                lemma_decimal_value_prefix(piece@, k + 1);
            }
            return None;
        }
        proof {
            assert(v * 10 + d <= u64::MAX) by (nonlinear_arith)
                requires
                    v <= (u64::MAX - d) / 10,
                    d <= 9,
            ;
        }
        v = v * 10 + d;
        k = k + 1;
    }
    assert(piece@.take(k as int) =~= piece@);
    Some(PreIdent::Numeric(v))
}

proof fn lemma_pre_idents_stay_none(pieces: Seq<Seq<char>>, k: int)
    requires
        0 <= k <= pieces.len(),
        pre_idents(pieces.take(k)) is None,
    ensures
        pre_idents(pieces) is None,
    decreases pieces.len() - k,
{
    if k < pieces.len() {
        assert(pieces.take(k + 1).drop_last() =~= pieces.take(k));
        lemma_pre_idents_stay_none(pieces, k + 1);
    } else {
        assert(pieces.take(k) =~= pieces);
    }
}

/// Reads a version string by semantic versioning: the numeric core, the
/// pre-release identifiers after the first `-`, and no build metadata
/// (everything from the first `+` on).
pub fn parse_version(s: &str) -> (res: Option<Version>)
    ensures
        match semver_parts(s@) {
            Some(v) => res matches Some(r) && r@ == v,
            None => res is None,
        },
{
    let cs = chars_of(s);
    let n = cs.len();
    assert(cs@.take(n as int) =~= cs@);
    let p = find_char(&cs, '+', n);
    let ghost main = s@.take(p as int);
    assert(main =~= cs@.take(p as int));
    let d = find_char(&cs, '-', p);
    assert(main.take(d as int) =~= cs@.take(d as int));
    let core = match parse_core(&cs, d) {
        None => return None,
        Some(core) => core,
    };
    if d < p {
        let mut sub: Vec<char> = Vec::new();
        let mut k: usize = d + 1;
        while k < p
            invariant
                d + 1 <= k <= p <= cs@.len(),
                sub@ == cs@.subrange(d + 1, k as int),
            decreases p - k,
        {
            sub.push(cs[k]);
            assert(cs@.subrange(d + 1, k + 1) =~= cs@.subrange(d + 1, k as int).push(cs@[k as int]));
            k = k + 1;
        }
        assert(sub@ =~= main.skip(d + 1));
        let pieces = split_chars(&sub, '.');
        let ghost pv = pieces@.map_values(|p: Vec<char>| p@);
        let ghost core_v = nat_parts(core@);
        assert(pv == split_on(main.skip(d + 1), '.'));
        assert(semver_parts(s@) == match pre_idents(pv) {
            Some(pre) => Some(SemVer { core: core_v, pre }),
            None => None,
        });
        let mut pre: Vec<PreIdent> = Vec::new();
        let mut i: usize = 0;
        assert(pv.take(0) =~= Seq::<Seq<char>>::empty());
        while i < pieces.len()
            invariant
                i <= pieces@.len(),
                pv == pieces@.map_values(|p: Vec<char>| p@),
                core_v == nat_parts(core@),
                semver_parts(s@) == match pre_idents(pv) {
                    Some(pre) => Some(SemVer { core: core_v, pre }),
                    None => None,
                },
                pre_idents(pv.take(i as int)) == Some(pre@.map_values(|q: PreIdent| pre_ident_view(q))),
            decreases pieces@.len() - i,
        {
            assert(pv.take(i + 1).drop_last() =~= pv.take(i as int));
            assert(pv.take(i + 1).last() == pieces@[i as int]@);
            match parse_pre_ident(&pieces[i]) {
                None => {
                    proof {
                        lemma_pre_idents_stay_none(pv, i + 1);
                    }
                    return None;
                },
                Some(id) => {
                    let ghost before = pre@;
                    pre.push(id);
                    assert(pre@.map_values(|q: PreIdent| pre_ident_view(q)) =~= before.map_values(
                        |q: PreIdent| pre_ident_view(q),
                    ).push(pre_ident_view(id)));
                },
            }
            i = i + 1;
        }
        assert(pv.take(i as int) =~= pv);
        let r = Version { core, pre };
        assert(r@.pre == pre_idents(pv)->0);
        Some(r)
    } else {
        let r = Version { core, pre: Vec::new() };
        assert(r@.pre =~= Seq::<PreId>::empty());
        Some(r)
    }
}

/// Decides [`core_eq`].
fn core_equal(a: &Vec<u64>, b: &Vec<u64>) -> (res: bool)
    ensures
        res == core_eq(nat_parts(a@), nat_parts(b@)),
{
    let ghost na = nat_parts(a@);
    let ghost nb = nat_parts(b@);
    let n = if a.len() > b.len() { a.len() } else { b.len() };
    let mut i: usize = 0;
    while i < n
        invariant
            i <= n,
            n >= a@.len(),
            n >= b@.len(),
            na == nat_parts(a@),
            nb == nat_parts(b@),
            forall|j: int| 0 <= j < i ==> #[trigger] part_at(na, j) == part_at(nb, j),
        decreases n - i,
    {
        let x: u64 = if i < a.len() { a[i] } else { 0 };
        let y: u64 = if i < b.len() { b[i] } else { 0 };
        assert(part_at(na, i as int) == x as nat);
        assert(part_at(nb, i as int) == y as nat);
        if x != y {
            return false;
        }
        i = i + 1;
    }
    assert forall|k: int| #[trigger] part_at(na, k) == part_at(nb, k) by {
        if k >= n || k < 0 {
        }
    }
    true
}

proof fn lemma_id_trichotomy(x: PreId, y: PreId)
    requires
        !id_lt(x, y),
        !id_lt(y, x),
    ensures
        x == y,
{
    if let (PreId::Alpha(a), PreId::Alpha(b)) = (x, y) {
        lemma_lex_le_antisymmetric(a, b);
    }
}

/// Decides [`id_lt`].
fn ident_less(x: &PreIdent, y: &PreIdent) -> (res: bool)
    ensures
        res == id_lt(pre_ident_view(*x), pre_ident_view(*y)),
{
    match (x, y) {
        (PreIdent::Numeric(a), PreIdent::Numeric(b)) => *a < *b,
        (PreIdent::Numeric(_), PreIdent::Alpha(_)) => true,
        (PreIdent::Alpha(_), PreIdent::Numeric(_)) => false,
        (PreIdent::Alpha(a), PreIdent::Alpha(b)) => !lex_le_chars(b, a),
    }
}

/// Decides [`pre_lt`].
fn pre_less(a: &Vec<PreIdent>, b: &Vec<PreIdent>) -> (res: bool)
    ensures
        res == pre_lt(a@.map_values(|q: PreIdent| pre_ident_view(q)), b@.map_values(|q: PreIdent| pre_ident_view(q))),
{
    let ghost av = a@.map_values(|q: PreIdent| pre_ident_view(q));
    let ghost bv = b@.map_values(|q: PreIdent| pre_ident_view(q));
    let n = if a.len() < b.len() { a.len() } else { b.len() };
    let mut i: usize = 0;
    assert(av.take(0) =~= bv.take(0));
    while i < n
        invariant
            i <= n,
            n == a@.len() || n == b@.len(),
            n <= a@.len(),
            n <= b@.len(),
            av == a@.map_values(|q: PreIdent| pre_ident_view(q)),
            bv == b@.map_values(|q: PreIdent| pre_ident_view(q)),
            av.take(i as int) == bv.take(i as int),
        decreases n - i,
    {
        assert(av[i as int] == pre_ident_view(a@[i as int]));
        assert(bv[i as int] == pre_ident_view(b@[i as int]));
        if ident_less(&a[i], &b[i]) {
            assert(pre_lt_at(av, bv, i as int));
            return true;
        }
        if ident_less(&b[i], &a[i]) {
            proof {
                if pre_lt(av, bv) {
                    let k = choose|k: int| #[trigger] pre_lt_at(av, bv, k);
                    if k < i {
                        assert(av.take(i as int)[k] == bv.take(i as int)[k]);
                        lemma_id_lt_irreflexive(av[k]);
                    } else if k == i {
                        lemma_id_lt_transitive(av[k], bv[k], av[k]);
                        lemma_id_lt_irreflexive(av[k]);
                    } else {
                        assert(av.take(k)[i as int] == bv.take(k)[i as int]);
                        lemma_id_lt_irreflexive(bv[i as int]);
                    }
                }
            }
            return false;
        }
        proof {
            lemma_id_trichotomy(av[i as int], bv[i as int]);
            assert(av.take(i + 1) =~= av.take(i as int).push(av[i as int]));
            assert(bv.take(i + 1) =~= bv.take(i as int).push(bv[i as int]));
        }
        i = i + 1;
    }
    proof {
        if a.len() < b.len() {
            assert(pre_lt_at(av, bv, n as int));
        } else if pre_lt(av, bv) {
            let k = choose|k: int| #[trigger] pre_lt_at(av, bv, k);
            assert(av.take(n as int)[k] == bv.take(n as int)[k]);
            lemma_id_lt_irreflexive(av[k]);
        }
    }
    a.len() < b.len()
}

/// Decides [`semver_lt`].
pub fn semver_less(a: &Version, b: &Version) -> (res: bool)
    ensures
        res == semver_lt(a@, b@),
{
    if core_less(&a.core, &b.core) {
        return true;
    }
    if !core_equal(&a.core, &b.core) {
        return false;
    }
    if a.pre.len() == 0 {
        return false;
    }
    if b.pre.len() == 0 {
        return true;
    }
    pre_less(&a.pre, &b.pre)
}

/// Every fixed version listed for the package named `name`.
fn collect_candidates(affected: &Vec<OsvAffected>, name: &String) -> (res: Vec<String>)
    ensures
        views(res@) == fixed_candidates(affected@, name@),
{
    let mut res: Vec<String> = Vec::new();
    let mut i: usize = 0;
    while i < affected.len()
        invariant
            i <= affected@.len(),
            views(res@) == fixed_candidates(affected@.take(i as int), name@),
        decreases affected@.len() - i,
    {
        let entry = &affected[i];
        assert(affected@.take(i + 1).drop_last() =~= affected@.take(i as int));
        assert(affected@.take(i + 1).last() == *entry);
        if entry.package_name == *name {
            let ghost before = views(res@);
            let mut k: usize = 0;
            while k < entry.fixed.len()
                invariant
                    k <= entry.fixed@.len(),
                    views(res@) == before + views(entry.fixed@).take(k as int),
                decreases entry.fixed@.len() - k,
            {
                let ghost prev = res@;
                res.push(entry.fixed[k].clone());
                assert(views(res@) =~= views(prev).push(entry.fixed@[k as int]@));
                assert(views(entry.fixed@).take(k + 1) =~= views(entry.fixed@).take(k as int).push(
                    entry.fixed@[k as int]@,
                ));
                k = k + 1;
            }
            assert(views(entry.fixed@).take(k as int) =~= views(entry.fixed@));
        } else {
            assert(views(res@) =~= views(res@) + Seq::<Seq<char>>::empty());
        }
        i = i + 1;
    }
    assert(affected@.take(i as int) =~= affected@);
    res
}

/// The patched version to bump `package` to, from an advisory's `affected`
/// entries: the lowest fixed version listed for the package that orders
/// above its resolved version.
pub fn lowest_fixed_version(affected: &Vec<OsvAffected>, package: &PackageId) -> (res: Option<String>)
    ensures
        match fixed_version_for(affected@, *package) {
            Some(v) => res matches Some(r) && r@ == v,
            None => res is None,
        },
{
    let current = match parse_version(package.version.as_str()) {
        None => return None,
        Some(v) => v,
    };
    let cands = collect_candidates(affected, &package.name);
    let ghost cs = views(cands@);
    let ghost cur = current@;
    let mut best: Option<(String, Version)> = None;
    let mut i: usize = 0;
    while i < cands.len()
        invariant
            i <= cands@.len(),
            cs == views(cands@),
            cur == current@,
            match lowest_upgrade(cs.take(i as int), cur) {
                Some(b) => best matches Some(p) && p.0@ == b && semver_parts(b) == Some(p.1@),
                None => best is None,
            },
        decreases cands@.len() - i,
    {
        assert(cs.take(i + 1).drop_last() =~= cs.take(i as int));
        assert(cs.take(i + 1).last() == cands@[i as int]@);
        match parse_version(cands[i].as_str()) {
            None => {},
            Some(v) => {
                if semver_less(&current, &v) {
                    let replace = match &best {
                        None => true,
                        Some(p) => semver_less(&v, &p.1),
                    };
                    if replace {
                        best = Some((cands[i].clone(), v));
                    }
                }
            },
        }
        i = i + 1;
    }
    assert(cs.take(i as int) =~= cs);
    match best {
        None => None,
        Some(p) => Some(p.0),
    }
}

/// The full Unicode upper-case mapping of `s`, as `str::to_uppercase`
/// gives it.
pub uninterp spec fn uppercase(s: Seq<char>) -> Seq<char>;

/// The ASCII upper case of `c`.
pub open spec fn ascii_upper(c: char) -> char {
    if 'a' <= c && c <= 'z' {
        ((c as u32) - 32) as char
    } else {
        c
    }
}

/// `str::to_uppercase`. Of text made only of ASCII characters the result
/// is stated: each lower-case letter becomes its upper-case letter and
/// every other character stays. Of other text only the name is stated.
#[verifier::external_body]
fn upper_case(s: &str) -> (res: String)
    ensures
        res@ == uppercase(s@),
        (forall|i: int| 0 <= i < s@.len() ==> (s@[i] as u32) < 128) ==> res@ == s@.map_values(
            |c: char| ascii_upper(c),
        ),
{
    s.to_uppercase()
}

/// The base score, in tenths of a CVSS point, of an upper-cased severity
/// category: the midpoint of the band of CVSS v3's qualitative rating table.
pub open spec fn category_tenths(upper: Seq<char>) -> Option<u32> {
    if upper == "CRITICAL"@ {
        Some(95)
    } else if upper == "HIGH"@ {
        Some(75)
    } else if upper == "MODERATE"@ || upper == "MEDIUM"@ {
        Some(50)
    } else if upper == "LOW"@ {
        Some(25)
    } else {
        None
    }
}

/// The base score of an upper-cased severity category, in tenths.
pub fn score_of_upper_category(upper: &str) -> (res: Option<u32>)
    ensures
        res == category_tenths(upper@),
{
    let u = String::from_str(upper);
    if u == String::from_str("CRITICAL") {
        Some(95)
    } else if u == String::from_str("HIGH") {
        Some(75)
    } else if u == String::from_str("MODERATE") || u == String::from_str("MEDIUM") {
        Some(50)
    } else if u == String::from_str("LOW") {
        Some(25)
    } else {
        None
    }
}

/// The base score, in tenths, of a severity category such as `HIGH`, in
/// any letter case; `None` for a category outside LOW, MODERATE (or
/// MEDIUM), HIGH and CRITICAL.
pub fn severity_category_to_score(category: &str) -> (res: Option<u32>)
    ensures
        res == category_tenths(uppercase(category@)),
        (forall|i: int| 0 <= i < category@.len() ==> (category@[i] as u32) < 128) ==> res == category_tenths(
            category@.map_values(|c: char| ascii_upper(c)),
        ),
{
    let upper = upper_case(category);
    score_of_upper_category(upper.as_str())
}

/// The base score of a CVSS vector. The official formula is not computed:
/// no vector gives a score, and the caller falls back to a placeholder
/// severity while the vector itself is still shown.
pub fn parse_cvss_vector_to_base_score(vector: &str) -> (res: Option<u32>)
    ensures
        res is None,
{
    None
}

/// Whether `s` begins with `prefix`.
pub open spec fn has_prefix(s: Seq<char>, prefix: Seq<char>) -> bool {
    prefix.len() <= s.len() && s.subrange(0, prefix.len() as int) == prefix
}

/// Decides [`has_prefix`].
pub fn starts_with(s: &str, prefix: &str) -> (res: bool)
    ensures
        res == has_prefix(s@, prefix@),
{
    let a = chars_of(s);
    let p = chars_of(prefix);
    if p.len() > a.len() {
        return false;
    }
    let mut i: usize = 0;
    while i < p.len()
        invariant
            i <= p@.len() <= a@.len(),
            a@ == s@,
            p@ == prefix@,
            forall|j: int| 0 <= j < i ==> a@[j] == p@[j],
        decreases p@.len() - i,
    {
        if a[i] != p[i] {
            assert(s@.subrange(0, prefix@.len() as int)[i as int] != prefix@[i as int]);
            return false;
        }
        i = i + 1;
    }
    assert(s@.subrange(0, prefix@.len() as int) =~= prefix@);
    true
}

/// The index of the first severity entry whose scoring system starts with
/// `CVSS`.
pub open spec fn first_cvss(severity: Seq<OsvSeverity>) -> Option<int> {
    if exists|i: int| 0 <= i < severity.len() && has_prefix(severity[i].kind@, "CVSS"@) {
        Some(choose|i: int|
            0 <= i < severity.len() && has_prefix(severity[i].kind@, "CVSS"@) && forall|j: int|
                0 <= j < i ==> !has_prefix(severity[j].kind@, "CVSS"@))
    } else {
        None
    }
}

/// Whether `tenths` and `raw` are the base severity of an advisory and
/// the raw severity text it came from: the first CVSS entry's vector
/// (scored by [`parse_cvss_vector_to_base_score`]), else the database's
/// severity category, else nothing.
pub open spec fn is_base_severity(detail: OsvVulnDetail, tenths: Option<u32>, raw: Option<String>) -> bool {
    match first_cvss(detail.severity@) {
        Some(i) => tenths is None && (raw matches Some(r) && r@ == detail.severity@[i].score@),
        None => match detail.database_severity {
            Some(cat) => tenths == category_tenths(uppercase(cat@)) && (raw matches Some(r) && r@ == cat@),
            None => tenths is None && raw is None,
        },
    }
}

/// The base severity of an advisory, in tenths of a point, and the raw
/// severity text it came from: the first CVSS entry's vector (scored by
/// [`parse_cvss_vector_to_base_score`]), else the database's severity
/// category, else nothing.
pub fn extract_base_severity(detail: &OsvVulnDetail) -> (res: (Option<u32>, Option<String>))
    ensures
        is_base_severity(*detail, res.0, res.1),
{
    let mut i: usize = 0;
    while i < detail.severity.len()
        invariant
            i <= detail.severity@.len(),
            forall|j: int| 0 <= j < i ==> !has_prefix(detail.severity@[j].kind@, "CVSS"@),
        decreases detail.severity@.len() - i,
    {
        let entry = &detail.severity[i];
        if starts_with(entry.kind.as_str(), "CVSS") {
            proof {
                let w = first_cvss(detail.severity@);
                assert(exists|k: int| 0 <= k < detail.severity@.len() && has_prefix(detail.severity@[k].kind@, "CVSS"@));
                let c = w->0;
                assert(c == i) by {
                    if c < i {
                    } else if c > i {
                    }
                }
            }
            return (parse_cvss_vector_to_base_score(entry.score.as_str()), Some(entry.score.clone()));
        }
        i = i + 1;
    }
    match &detail.database_severity {
        Some(category) => (severity_category_to_score(category.as_str()), Some(category.clone())),
        None => (None, None),
    }
}

/// The vulnerability that an advisory record describes for `package`.
pub fn vulnerability_from_detail(detail: OsvVulnDetail, package: PackageId) -> (res: Vulnerability)
    ensures
        res.id == detail.id,
        res.package == package,
        res.summary@ == (match detail.summary {
            Some(s) => s@,
            None => Seq::<char>::empty(),
        }),
        is_base_severity(detail, res.severity_tenths, res.raw_severity),
        match fixed_version_for(detail.affected@, package) {
            Some(v) => res.fixed_version matches Some(f) && f@ == v,
            None => res.fixed_version is None,
        },
{
    let (severity_tenths, raw_severity) = extract_base_severity(&detail);
    let fixed_version = lowest_fixed_version(&detail.affected, &package);
    let summary = match detail.summary {
        Some(s) => s,
        None => String::new(),
    };
    Vulnerability { id: detail.id, package, summary, severity_tenths, raw_severity, fixed_version }
}

/// The detail fetches that follow a batch query: for the `i`-th package
/// (as far as there are results), one per advisory id in the `i`-th
/// result, in order.
pub open spec fn requests_of(packages: Seq<PackageId>, results: Seq<Seq<Seq<char>>>, n: nat) -> Seq<(Seq<char>, PackageId)>
    decreases n,
{
    if n == 0 {
        Seq::empty()
    } else {
        requests_of(packages, results, (n - 1) as nat) + results[n - 1].map_values(
            |id: Seq<char>| (id, packages[n - 1]),
        )
    }
}

/// Pairs each advisory id of a batch query's results with the package it
/// was reported for; results are matched to packages by position, and
/// only as many as there are of both.
pub fn detail_requests(packages: &Vec<PackageId>, results: Vec<Vec<String>>) -> (res: Vec<(String, PackageId)>)
    ensures
        res@.map_values(|r: (String, PackageId)| (r.0@, r.1)) == requests_of(
            packages@,
            results@.map_values(|ids: Vec<String>| views(ids@)),
            if packages@.len() < results@.len() { packages@.len() } else { results@.len() },
        ),
{
    let ghost rs = results@.map_values(|ids: Vec<String>| views(ids@));
    let n = if packages.len() < results.len() { packages.len() } else { results.len() };
    let mut res: Vec<(String, PackageId)> = Vec::new();
    let mut i: usize = 0;
    while i < n
        invariant
            i <= n,
            n <= packages@.len(),
            n <= results@.len(),
            rs == results@.map_values(|ids: Vec<String>| views(ids@)),
            res@.map_values(|r: (String, PackageId)| (r.0@, r.1)) == requests_of(packages@, rs, i as nat),
        decreases n - i,
    {
        let ids = &results[i];
        let ghost before = res@.map_values(|r: (String, PackageId)| (r.0@, r.1));
        let mut k: usize = 0;
        while k < ids.len()
            invariant
                k <= ids@.len(),
                i < n <= packages@.len(),
                *ids == results@[i as int],
                res@.map_values(|r: (String, PackageId)| (r.0@, r.1)) == before + views(ids@).take(k as int).map_values(
                    |id: Seq<char>| (id, packages@[i as int]),
                ),
            decreases ids@.len() - k,
        {
            let ghost prev = res@;
            res.push((ids[k].clone(), packages[i].clone()));
            proof {
                assert(res@.map_values(|r: (String, PackageId)| (r.0@, r.1)) =~= prev.map_values(
                    |r: (String, PackageId)| (r.0@, r.1),
                ).push((ids@[k as int]@, packages@[i as int])));
                assert(views(ids@).take(k + 1).map_values(|id: Seq<char>| (id, packages@[i as int]))
                    =~= views(ids@).take(k as int).map_values(|id: Seq<char>| (id, packages@[i as int])).push(
                    (ids@[k as int]@, packages@[i as int]),
                ));
            }
            k = k + 1;
        }
        proof {
            assert(views(ids@).take(k as int) =~= views(ids@));
            assert(rs[i as int] == views(ids@));
        }
        i = i + 1;
    }
    res
}

/// The fixed version chosen for a package is one that the advisory lists
/// for it, orders above the resolved version, and no listed fixed version
/// above the resolved one orders below it; there is none only when no
/// listed fixed version orders above the resolved one (or the resolved
/// version cannot be read).
pub proof fn law_fixed_version_is_lowest(affected: Seq<OsvAffected>, package: PackageId)
    ensures
        match semver_parts(package.version@) {
            None => fixed_version_for(affected, package) is None,
            Some(current) => {
                let cands = fixed_candidates(affected, package.name@);
                match fixed_version_for(affected, package) {
                    Some(v) => cands.contains(v) && is_upgrade(current, v) && forall|d: Seq<char>|
                        #![trigger cands.contains(d)]
                        cands.contains(d) && is_upgrade(current, d) ==> !semver_lt(
                            semver_parts(d)->0,
                            semver_parts(v)->0,
                        ),
                    None => forall|d: Seq<char>| #![trigger cands.contains(d)] cands.contains(d) ==> !is_upgrade(
                        current,
                        d,
                    ),
                }
            },
        },
{
    if let Some(current) = semver_parts(package.version@) {
        lemma_lowest_upgrade(fixed_candidates(affected, package.name@), current);
    }
}

} // verus!
