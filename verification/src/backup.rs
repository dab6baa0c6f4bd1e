//! The backup rules: reason sanitizing, the timestamped backup file name,
//! the listing order, and which files rotation removes. The filesystem
//! itself — copying the database, reading the directory, deleting files —
//! is the caller's: these functions turn directory listings into decisions.
//!
//! Listing and rotation deliberately disagree, as the surrounding
//! application always has: listing hides a `.db` file whose stem does not
//! split into three underscore-separated parts, while rotation counts and
//! may delete every `.db` file.

use vstd::prelude::*;

use crate::chars::{
    char_is_alphanumeric, chars_of, lemma_lex_refl, lemma_lex_total, lemma_lex_trans, lex_le,
    lex_le_str, string_from_chars, unicode_alphanumeric,
};
use crate::util::sub_vec;
use vstd::multiset::Multiset;
use vstd::string::StringExecFns;

verus! {

broadcast use vstd::seq_lib::group_to_multiset_ensures, vstd::multiset::group_multiset_axioms;

/// How many backups rotation retains.
pub open spec fn spec_max_backups() -> int {
    20
}

/// How many backups rotation retains, as a count.
pub fn max_backups() -> (r: usize)
    ensures
        r == spec_max_backups(),
{
    20
}

/// One listed backup: its path, the timestamp parsed from its file name,
/// and the reason tag.
pub struct BackupInfo {
    pub path: String,
    pub created_at: String,
    pub reason: String,
}

/// The triple of views a `BackupInfo` denotes.
pub open spec fn info_view(b: BackupInfo) -> (Seq<char>, Seq<char>, Seq<char>) {
    (b.path@, b.created_at@, b.reason@)
}

/// The views of a sequence of records.
pub open spec fn infos_view(s: Seq<BackupInfo>) -> Seq<(Seq<char>, Seq<char>, Seq<char>)> {
    s.map_values(|b: BackupInfo| info_view(b))
}

/// The views of a sequence of strings.
pub open spec fn views_of(s: Seq<String>) -> Seq<Seq<char>> {
    s.map_values(|x: String| x@)
}

/// A character that survives reason sanitizing: alphanumeric, dash or
/// underscore.
pub open spec fn is_reason_char(c: char) -> bool {
    unicode_alphanumeric(c) || c == '-' || c == '_'
}

/// The conforming characters of a reason, in order.
pub open spec fn kept_reason_chars(s: Seq<char>) -> Seq<char> {
    s.filter(|c: char| is_reason_char(c))
}

proof fn lemma_kept_distributes(a: Seq<char>, b: Seq<char>)
    ensures
        kept_reason_chars(a + b) == kept_reason_chars(a) + kept_reason_chars(b),
    decreases b.len(),
{
    reveal(Seq::filter);
    if b.len() == 0 {
        assert(a + b =~= a);
        assert(kept_reason_chars(a) + kept_reason_chars(b) =~= kept_reason_chars(a));
    } else {
        lemma_kept_distributes(a, b.drop_last());
        assert((a + b).drop_last() =~= a + b.drop_last());
        assert((a + b).len() > 0);
        assert((a + b).last() == b.last());
        assert(kept_reason_chars(a + b) =~= kept_reason_chars(a) + kept_reason_chars(b));
    }
}

/// The sanitized reason: conforming characters kept in order, truncated to
/// 50; nothing is rejected.
pub open spec fn sanitize_spec(s: Seq<char>) -> Seq<char> {
    if kept_reason_chars(s).len() <= 50 {
        kept_reason_chars(s)
    } else {
        kept_reason_chars(s).take(50)
    }
}

/// Keeps the alphanumeric, dash and underscore characters of `reason`, up
/// to 50 of them.
pub fn sanitize_reason(reason: &str) -> (r: String)
    ensures
        r@ == sanitize_spec(reason@),
{
    let cs = chars_of(reason);
    let n = cs.len();
    let mut out: Vec<char> = Vec::new();
    let mut i: usize = 0;
    proof {
        reveal(Seq::filter);
        assert(cs@.take(0) =~= Seq::<char>::empty());
    }
    while i < n && out.len() < 50
        invariant
            i <= n,
            n == cs@.len(),
            cs@ == reason@,
            out@.len() <= 50,
            out@ == kept_reason_chars(reason@.take(i as int)),
        decreases n - i,
    {
        let c = cs[i];
        if char_is_alphanumeric(c) || c == '-' || c == '_' {
            out.push(c);
        }
        proof {
            reveal(Seq::filter);
            assert(reason@.take((i + 1) as int).drop_last() =~= reason@.take(i as int));
            assert(reason@.take((i + 1) as int).last() == reason@[i as int]);
        }
        i = i + 1;
    }
    proof {
        if i == n {
            assert(reason@.take(n as int) =~= reason@);
        } else {
            assert(out@.len() == 50);
            assert(reason@ =~= reason@.take(i as int) + reason@.skip(i as int));
            lemma_kept_distributes(reason@.take(i as int), reason@.skip(i as int));
            assert(kept_reason_chars(reason@).take(50) =~= out@);
        }
    }
    string_from_chars(&out)
}

/// `<timestamp>_<sanitized reason>.db`, the one on-disk naming contract.
pub fn backup_file_name(timestamp: &str, reason: &str) -> (r: String)
    ensures
        r@ == timestamp@ + "_"@ + sanitize_spec(reason@) + ".db"@,
{
    let sanitized = sanitize_reason(reason);
    let mut out: String = timestamp.to_owned();
    out.append("_");
    out.append(sanitized.as_str());
    out.append(".db");
    out
}

/// The name ends in `.db` with a nonempty stem, as the surrounding
/// application's extension test decides it.
pub open spec fn has_db_extension(name: Seq<char>) -> bool {
    &&& name.len() >= 4
    &&& name[name.len() - 3] == '.'
    &&& name[name.len() - 2] == 'd'
    &&& name[name.len() - 1] == 'b'
}

/// Decides `has_db_extension`.
fn is_db_name(name: &Vec<char>) -> (r: bool)
    ensures
        r == has_db_extension(name@),
{
    let n = name.len();
    n >= 4 && name[n - 3] == '.' && name[n - 2] == 'd' && name[n - 1] == 'b'
}

/// The first position at or after `from` holding an underscore, or the
/// length when there is none.
pub open spec fn find_underscore(s: Seq<char>, from: int) -> int
    decreases s.len() - from,
{
    if from < 0 || from >= s.len() {
        s.len() as int
    } else if s[from] == '_' {
        from
    } else {
        find_underscore(s, from + 1)
    }
}

/// Decides `find_underscore`.
fn find_underscore_at(s: &Vec<char>, from: usize) -> (r: usize)
    requires
        from <= s@.len(),
    ensures
        r == find_underscore(s@, from as int),
        from <= r <= s@.len(),
{
    let n = s.len();
    let mut i: usize = from;
    while i < n
        invariant
            from <= i <= n,
            n == s@.len(),
            find_underscore(s@, from as int) == find_underscore(s@, i as int),
        decreases n - i,
    {
        if s[i] == '_' {
            return i;
        }
        i = i + 1;
    }
    n
}

/// Splitting a stem as `splitn(3, '_')` does: the timestamp is everything
/// up to the second underscore, the reason everything after it; a stem
/// with fewer than two underscores does not parse.
pub open spec fn parse_stem(stem: Seq<char>) -> Option<(Seq<char>, Seq<char>)> {
    let p1 = find_underscore(stem, 0);
    if p1 >= stem.len() {
        None
    } else {
        let p2 = find_underscore(stem, p1 + 1);
        if p2 >= stem.len() {
            None
        } else {
            Some((stem.take(p2), stem.skip(p2 + 1)))
        }
    }
}

/// A directory entry that the listing shows.
pub open spec fn listed(name: Seq<char>) -> bool {
    has_db_extension(name) && parse_stem(name.take(name.len() - 3)) is Some
}

/// The record a shown entry denotes: path `dir/name`, parsed timestamp,
/// parsed reason.
pub open spec fn info_of(dir: Seq<char>, name: Seq<char>) -> (Seq<char>, Seq<char>, Seq<char>) {
    let parts = parse_stem(name.take(name.len() - 3))->Some_0;
    (dir + "/"@ + name, parts.0, parts.1)
}

/// The records of every shown entry, in directory order.
pub open spec fn listed_infos(dir: Seq<char>, names: Seq<Seq<char>>) -> Seq<
    (Seq<char>, Seq<char>, Seq<char>),
>
    decreases names.len(),
{
    if names.len() == 0 {
        Seq::empty()
    } else {
        let rest = listed_infos(dir, names.drop_last());
        if listed(names.last()) {
            rest.push(info_of(dir, names.last()))
        } else {
            rest
        }
    }
}

/// Newest first by parsed timestamp.
pub open spec fn sorted_desc_by_created(s: Seq<BackupInfo>) -> bool {
    forall|i: int, j: int| 0 <= i <= j < s.len() ==> lex_le(s[j].created_at@, s[i].created_at@)
}

/// Selection sort, newest first by `created_at`.
fn sort_infos_desc(items: Vec<BackupInfo>) -> (r: Vec<BackupInfo>)
    ensures
        infos_view(r@).to_multiset() == infos_view(items@).to_multiset(),
        sorted_desc_by_created(r@),
{
    let mut rest = items;
    let mut out: Vec<BackupInfo> = Vec::new();
    let ghost all = infos_view(rest@).to_multiset();
    while rest.len() > 0
        invariant
            infos_view(out@).to_multiset().add(infos_view(rest@).to_multiset()) == all,
            sorted_desc_by_created(out@),
            forall|k: int, l: int|
                0 <= k < out@.len() && 0 <= l < rest@.len() ==> lex_le(
                    rest@[l].created_at@,
                    out@[k].created_at@,
                ),
        decreases rest.len(),
    {
        let mut best: usize = 0;
        let mut l: usize = 1;
        proof {
            lemma_lex_refl(rest@[0].created_at@);
        }
        while l < rest.len()
            invariant
                1 <= l <= rest@.len(),
                best < rest@.len(),
                rest@.len() > 0,
                forall|t: int|
                    0 <= t < l ==> lex_le(rest@[t].created_at@, rest@[best as int].created_at@),
            decreases rest@.len() - l,
        {
            if !lex_le_str(rest[l].created_at.as_str(), rest[best].created_at.as_str()) {
                proof {
                    lemma_lex_total(rest@[l as int].created_at@, rest@[best as int].created_at@);
                    lemma_lex_refl(rest@[l as int].created_at@);
                    assert forall|t: int| 0 <= t < l + 1 implies lex_le(
                        rest@[t].created_at@,
                        rest@[l as int].created_at@,
                    ) by {
                        if t < l {
                            lemma_lex_trans(
                                rest@[t].created_at@,
                                rest@[best as int].created_at@,
                                rest@[l as int].created_at@,
                            );
                        }
                    }
                }
                best = l;
            }
            l = l + 1;
        }
        let ghost rest0 = rest@;
        let picked = rest.remove(best);
        proof {
            assert(infos_view(rest@) =~= infos_view(rest0).remove(best as int));
            assert(infos_view(rest0)[best as int] == info_view(picked));
            assert(infos_view(out@.push(picked)) =~= infos_view(out@).push(info_view(picked)));
            assert(infos_view(out@.push(picked)).to_multiset().add(
                infos_view(rest@).to_multiset(),
            ) =~= all);
            assert forall|k: int, l2: int|
                0 <= k < out@.push(picked).len() && 0 <= l2 < rest@.len() implies lex_le(
                rest@[l2].created_at@,
                out@.push(picked)[k].created_at@,
            ) by {
                assert(rest@[l2] == if l2 < best as int {
                    rest0[l2]
                } else {
                    rest0[l2 + 1]
                });
            }
        }
        out.push(picked);
    }
    proof {
        assert(infos_view(rest@).to_multiset() =~= Multiset::<
            (Seq<char>, Seq<char>, Seq<char>),
        >::empty());
        assert(infos_view(out@).to_multiset() =~= all);
    }
    out
}

/// Turns a directory listing into backup records: `.db` entries whose stem
/// splits into at least three underscore-separated parts, newest first by
/// the timestamp parsed from the name. An empty listing — a missing
/// directory — gives an empty list, never an error.
pub fn list_database_backups(dir: &str, names: &Vec<String>) -> (r: Vec<BackupInfo>)
    ensures
        infos_view(r@).to_multiset() == listed_infos(dir@, views_of(names@)).to_multiset(),
        sorted_desc_by_created(r@),
{
    let ghost names_v = views_of(names@);
    let mut parsed: Vec<BackupInfo> = Vec::new();
    let n = names.len();
    let mut idx: usize = 0;
    proof {
        assert(names_v.take(0) =~= Seq::<Seq<char>>::empty());
        assert(infos_view(parsed@) =~= listed_infos(dir@, names_v.take(0)));
    }
    while idx < n
        invariant
            idx <= n,
            n == names@.len(),
            names_v == views_of(names@),
            infos_view(parsed@) == listed_infos(dir@, names_v.take(idx as int)),
        decreases n - idx,
    {
        let name = &names[idx];
        let cs = chars_of(name.as_str());
        proof {
            assert(cs@ == names_v[idx as int]);
        }
        if is_db_name(&cs) {
            let stem = sub_vec(&cs, 0, cs.len() - 3);
            let p1 = find_underscore_at(&stem, 0);
            if p1 < stem.len() {
                let p2 = find_underscore_at(&stem, p1 + 1);
                if p2 < stem.len() {
                    let created = string_from_chars(&sub_vec(&stem, 0, p2));
                    let tail = sub_vec(&stem, p2 + 1, stem.len());
                    let reason = string_from_chars(&tail);
                    let mut path: String = dir.to_owned();
                    path.append("/");
                    path.append(name.as_str());
                    let ghost prior = parsed@;
                    let info = BackupInfo { path, created_at: created, reason };
                    proof {
                        assert(stem@ =~= cs@.take(cs@.len() - 3));
                        assert(stem@.take(p2 as int) =~= stem@.subrange(0, p2 as int));
                        assert(stem@.skip(p2 + 1) =~= stem@.subrange(
                            (p2 + 1) as int,
                            stem@.len() as int,
                        ));
                        assert(info_view(info) == info_of(dir@, names_v[idx as int]));
                    }
                    parsed.push(info);
                    proof {
                        assert(infos_view(parsed@) =~= infos_view(prior).push(info_view(info)));
                    }
                }
            }
        }
        proof {
            assert(names_v.take((idx + 1) as int).drop_last() =~= names_v.take(idx as int));
            assert(names_v.take((idx + 1) as int).last() == names_v[idx as int]);
        }
        idx = idx + 1;
    }
    proof {
        assert(names_v.take(n as int) =~= names_v);
    }
    sort_infos_desc(parsed)
}

/// The `.db` entries of a listing — everything rotation counts, malformed
/// stems included.
pub open spec fn db_names(names: Seq<Seq<char>>) -> Seq<Seq<char>> {
    names.filter(|n: Seq<char>| has_db_extension(n))
}

/// Oldest first.
pub open spec fn sorted_asc(s: Seq<Seq<char>>) -> bool {
    forall|i: int, j: int| 0 <= i <= j < s.len() ==> lex_le(s[i], s[j])
}

/// Selection sort on names, oldest first.
fn sort_names_asc(items: Vec<String>) -> (r: Vec<String>)
    ensures
        views_of(r@).to_multiset() == views_of(items@).to_multiset(),
        sorted_asc(views_of(r@)),
        r@.len() == items@.len(),
{
    let mut rest = items;
    let mut out: Vec<String> = Vec::new();
    let ghost all = views_of(rest@).to_multiset();
    let ghost total = rest@.len();
    while rest.len() > 0
        invariant
            views_of(out@).to_multiset().add(views_of(rest@).to_multiset()) == all,
            out@.len() + rest@.len() == total,
            sorted_asc(views_of(out@)),
            forall|k: int, l: int|
                0 <= k < out@.len() && 0 <= l < rest@.len() ==> lex_le(out@[k]@, rest@[l]@),
        decreases rest.len(),
    {
        let mut best: usize = 0;
        let mut l: usize = 1;
        proof {
            lemma_lex_refl(rest@[0]@);
        }
        while l < rest.len()
            invariant
                1 <= l <= rest@.len(),
                best < rest@.len(),
                rest@.len() > 0,
                forall|t: int| 0 <= t < l ==> lex_le(rest@[best as int]@, rest@[t]@),
            decreases rest@.len() - l,
        {
            if !lex_le_str(rest[best].as_str(), rest[l].as_str()) {
                proof {
                    lemma_lex_total(rest@[best as int]@, rest@[l as int]@);
                    lemma_lex_refl(rest@[l as int]@);
                    assert forall|t: int| 0 <= t < l + 1 implies lex_le(
                        rest@[l as int]@,
                        rest@[t]@,
                    ) by {
                        if t < l {
                            lemma_lex_trans(rest@[l as int]@, rest@[best as int]@, rest@[t]@);
                        }
                    }
                }
                best = l;
            }
            l = l + 1;
        }
        let ghost rest0 = rest@;
        let picked = rest.remove(best);
        proof {
            assert(views_of(rest@) =~= views_of(rest0).remove(best as int));
            assert(views_of(rest0)[best as int] == picked@);
            assert(views_of(out@.push(picked)) =~= views_of(out@).push(picked@));
            assert(views_of(out@.push(picked)).to_multiset().add(views_of(rest@).to_multiset())
                =~= all);
            assert forall|k: int, l2: int|
                0 <= k < out@.push(picked).len() && 0 <= l2 < rest@.len() implies lex_le(
                out@.push(picked)[k]@,
                rest@[l2]@,
            ) by {
                assert(rest@[l2] == if l2 < best as int {
                    rest0[l2]
                } else {
                    rest0[l2 + 1]
                });
            }
        }
        out.push(picked);
    }
    proof {
        assert(views_of(rest@).to_multiset() =~= Multiset::<Seq<char>>::empty());
        assert(views_of(out@).to_multiset() =~= all);
    }
    out
}

/// Which files rotation deletes: nothing while at most 20 `.db` entries
/// exist; otherwise the oldest `count - 20`, by name — chronological order,
/// given the timestamp-prefixed naming. Every kept `.db` entry sorts at or
/// after every returned one.
pub fn select_rotation_victims(names: &Vec<String>) -> (r: Vec<String>)
    ensures
        db_names(views_of(names@)).len() <= spec_max_backups() ==> r@.len() == 0,
        db_names(views_of(names@)).len() > spec_max_backups() ==> {
            &&& r@.len() == db_names(views_of(names@)).len() - spec_max_backups()
            &&& views_of(r@).to_multiset().subset_of(db_names(views_of(names@)).to_multiset())
            &&& sorted_asc(views_of(r@))
            &&& forall|x: Seq<char>, i: int|
                0 <= i < r@.len() && db_names(views_of(names@)).to_multiset().count(x) > views_of(
                    r@,
                ).to_multiset().count(x) ==> lex_le(r@[i]@, x)
        },
{
    let ghost names_v = views_of(names@);
    let mut dbs: Vec<String> = Vec::new();
    let n = names.len();
    let mut idx: usize = 0;
    proof {
        reveal(Seq::filter);
        assert(names_v.take(0) =~= Seq::<Seq<char>>::empty());
        assert(views_of(dbs@) =~= db_names(names_v.take(0)));
    }
    while idx < n
        invariant
            idx <= n,
            n == names@.len(),
            names_v == views_of(names@),
            views_of(dbs@) == db_names(names_v.take(idx as int)),
        decreases n - idx,
    {
        let name = &names[idx];
        let cs = chars_of(name.as_str());
        proof {
            assert(cs@ == names_v[idx as int]);
        }
        let ghost prior = dbs@;
        if is_db_name(&cs) {
            dbs.push(name.clone());
            proof {
                assert(views_of(dbs@) =~= views_of(prior).push(names_v[idx as int]));
            }
        }
        proof {
            reveal(Seq::filter);
            assert(names_v.take((idx + 1) as int).drop_last() =~= names_v.take(idx as int));
            assert(names_v.take((idx + 1) as int).last() == names_v[idx as int]);
        }
        idx = idx + 1;
    }
    proof {
        assert(names_v.take(n as int) =~= names_v);
    }
    let limit = max_backups();
    if dbs.len() <= limit {
        return Vec::new();
    }
    let sorted = sort_names_asc(dbs);
    let surplus = sorted.len() - limit;
    let mut victims: Vec<String> = Vec::new();
    let mut k: usize = 0;
    while k < surplus
        invariant
            k <= surplus,
            surplus <= sorted@.len(),
            victims@ == sorted@.take(k as int),
        decreases surplus - k,
    {
        victims.push(sorted[k].clone());
        proof {
            assert(victims@ =~= sorted@.take((k + 1) as int));
        }
        k = k + 1;
    }
    proof {
        let sv = views_of(sorted@);
        let vv = views_of(victims@);
        let dbv = db_names(names_v);
        assert(vv =~= sv.take(surplus as int));
        assert(sorted@ =~= sorted@.take(surplus as int) + sorted@.skip(surplus as int));
        assert(sv =~= vv + views_of(sorted@.skip(surplus as int)));
        vstd::seq_lib::lemma_multiset_commutative(vv, views_of(sorted@.skip(surplus as int)));
        assert forall|x: Seq<char>| vv.to_multiset().count(x) <= dbv.to_multiset().count(
            x,
        ) by {}
        assert(vv.to_multiset().subset_of(dbv.to_multiset()));
        let kept = views_of(sorted@.skip(surplus as int));
        assert forall|x: Seq<char>, i: int|
            0 <= i < victims@.len() && dbv.to_multiset().count(x) > vv.to_multiset().count(
                x,
            ) implies lex_le(victims@[i]@, x) by {
            assert(kept.to_multiset().count(x) > 0);
            assert(kept.contains(x));
            let j = choose|j: int| 0 <= j < kept.len() && kept[j] == x;
            assert(kept[j] == sv[surplus + j]);
            assert(lex_le(sv[i], sv[surplus + j]));
        }
    }
    victims
}

} // verus!
