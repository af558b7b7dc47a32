//! The directory lister and filter: given the outcome of scanning the base
//! directory and a query string, keep the entry names that contain the query
//! as a literal substring.

use crate::error::AppError;
use vstd::prelude::*;

verus! {

/// One immediate child of the base directory, as the application read it.
/// The name is kept when it is valid text; otherwise the entry records why
/// it cannot be listed.
pub enum ScanEntry {
    /// The entry's name, as valid text.
    Named(String),
    /// The entry's name cannot be represented as valid text.
    NotText,
    /// Reading the entry failed; the payload is the reported reason.
    Unreadable(String),
}

/// The outcome of scanning the base directory, handed to `search` by the
/// application. Entries appear in filesystem enumeration order.
pub enum DirectoryScan {
    /// The base directory is absent or is not a directory.
    NotADirectory,
    /// Enumerating the directory failed; the payload is the reported reason.
    ReadFailed(String),
    /// The immediate children of the directory, in enumeration order.
    Entries(Vec<ScanEntry>),
}

/// The names of the scanned entries, or the error of the first entry that
/// has no usable name. Entries after the first defective one are not
/// consulted: the whole scan fails.
pub open spec fn entry_names(entries: Seq<ScanEntry>) -> Result<Seq<Seq<char>>, AppError>
    decreases entries.len(),
{
    if entries.len() == 0 {
        Ok(Seq::empty())
    } else {
        match entries[0] {
            ScanEntry::Named(s) => match entry_names(entries.drop_first()) {
                Ok(rest) => Ok(seq![s@] + rest),
                Err(e) => Err(e),
            },
            ScanEntry::NotText => Err(AppError::EncodingError),
            ScanEntry::Unreadable(m) => Err(AppError::IOError(m)),
        }
    }
}

/// The views of a sequence of names.
pub open spec fn views_of(names: Seq<String>) -> Seq<Seq<char>> {
    names.map_values(|s: String| s@)
}

/// The name views of entries that are all `Named`. On any other entry the
/// value is immaterial: callers establish that none occurs.
spec fn named_views(entries: Seq<ScanEntry>) -> Seq<Seq<char>> {
    entries.map_values(
        |e: ScanEntry|
            match e {
                ScanEntry::Named(s) => s@,
                _ => Seq::empty(),
            },
    )
}

proof fn lemma_entry_names_all_named(entries: Seq<ScanEntry>)
    requires
        forall|j: int| 0 <= j < entries.len() ==> entries[j] is Named,
    ensures
        entry_names(entries) == Ok::<Seq<Seq<char>>, AppError>(named_views(entries)),
    decreases entries.len(),
{
    if entries.len() == 0 {
        assert(named_views(entries) =~= Seq::<Seq<char>>::empty());
    } else {
        let rest = entries.drop_first();
        assert forall|j: int| 0 <= j < rest.len() implies rest[j] is Named by {
            assert(rest[j] == entries[j + 1]);
        }
        lemma_entry_names_all_named(rest);
        let s = entries[0]->Named_0;
        assert(named_views(entries) =~= seq![s@] + named_views(rest));
    }
}

proof fn lemma_entry_names_defect(entries: Seq<ScanEntry>, i: int)
    requires
        0 <= i < entries.len(),
        forall|j: int| 0 <= j < i ==> entries[j] is Named,
        !(entries[i] is Named),
    ensures
        entries[i] is NotText ==> entry_names(entries) == Err::<
            Seq<Seq<char>>,
            AppError,
        >(AppError::EncodingError),
        entries[i] matches ScanEntry::Unreadable(m) ==> entry_names(entries) == Err::<
            Seq<Seq<char>>,
            AppError,
        >(AppError::IOError(m)),
    decreases i,
{
    if i > 0 {
        let rest = entries.drop_first();
        assert forall|j: int| 0 <= j < i - 1 implies rest[j] is Named by {
            assert(rest[j] == entries[j + 1]);
        }
        assert(rest[i - 1] == entries[i]);
        lemma_entry_names_defect(rest, i - 1);
    }
}

/// The names of the scanned entries, in order, or the error of the first
/// entry that has no usable name.
pub fn collect_names(entries: &Vec<ScanEntry>) -> (r: Result<Vec<String>, AppError>)
    ensures
        match r {
            Ok(names) => entry_names(entries@) == Ok::<Seq<Seq<char>>, AppError>(views_of(names@)),
            Err(e) => entry_names(entries@) == Err::<Seq<Seq<char>>, AppError>(e),
        },
{
    let mut names: Vec<String> = Vec::new();
    let mut i: usize = 0;
    while i < entries.len()
        invariant
            i <= entries@.len(),
            forall|j: int| 0 <= j < i ==> entries@[j] is Named,
            views_of(names@) == named_views(entries@.take(i as int)),
        decreases entries@.len() - i,
    {
        match &entries[i] {
            ScanEntry::Named(s) => {
                proof {
                    assert(entries@.take(i + 1) =~= entries@.take(i as int).push(
                        entries@[i as int],
                    ));
                    assert(named_views(entries@.take(i as int).push(entries@[i as int])) =~= named_views(
                        entries@.take(i as int),
                    ).push(s@));
                }
                names.push(s.clone());
                assert(views_of(names@) =~= named_views(entries@.take(i as int)).push(s@));
            },
            ScanEntry::NotText => {
                proof {
                    lemma_entry_names_defect(entries@, i as int);
                }
                return Err(AppError::EncodingError);
            },
            ScanEntry::Unreadable(m) => {
                proof {
                    lemma_entry_names_defect(entries@, i as int);
                }
                return Err(AppError::IOError(m.clone()));
            },
        }
        i = i + 1;
    }
    proof {
        lemma_entry_names_all_named(entries@);
        assert(entries@.take(entries@.len() as int) =~= entries@);
    }
    Ok(names)
}

/// `q` occurs in `s` starting at position `i`.
pub open spec fn contains_at(s: Seq<char>, q: Seq<char>, i: int) -> bool {
    0 <= i && i + q.len() <= s.len() && s.subrange(i, i + q.len()) == q
}

/// `q` occurs somewhere in `s` as a contiguous substring. The empty
/// sequence occurs in every sequence.
pub open spec fn contains_substring(s: Seq<char>, q: Seq<char>) -> bool {
    exists|i: int| contains_at(s, q, i)
}

/// Whether `name` contains `query` as a literal substring: case-sensitive,
/// no normalization, exactly the character-level containment test.
pub fn name_contains(name: &str, query: &str) -> (b: bool)
    ensures
        b == contains_substring(name@, query@),
{
    let n = name.unicode_len();
    let m = query.unicode_len();
    if m == 0 {
        assert(contains_at(name@, query@, 0)) by {
            assert(name@.subrange(0, 0) =~= query@);
        }
        return true;
    }
    if m > n {
        return false;
    }
    let mut i: usize = 0;
    while i <= n - m
        invariant
            n == name@.len(),
            m == query@.len(),
            1 <= m <= n,
            i <= n - m + 1,
            forall|j: int| 0 <= j < i ==> !contains_at(name@, query@, j),
        decreases n - m + 1 - i,
    {
        if match_at(name, query, i) {
            return true;
        }
        i = i + 1;
    }
    assert(forall|j: int| contains_at(name@, query@, j) ==> 0 <= j < i);
    false
}

/// Whether `query` occurs in `name` starting at character position `i`.
fn match_at(name: &str, query: &str, i: usize) -> (b: bool)
    requires
        i + query@.len() <= name@.len(),
    ensures
        b == contains_at(name@, query@, i as int),
{
    let n = name.unicode_len();
    let m = query.unicode_len();
    assert(i + m <= n);
    let mut k: usize = 0;
    while k < m
        invariant
            n == name@.len(),
            m == query@.len(),
            i + m <= n,
            k <= m,
            forall|t: int| 0 <= t < k ==> name@[i + t] == query@[t],
        decreases m - k,
    {
        if name.get_char(i + k) != query.get_char(k) {
            assert(!contains_at(name@, query@, i as int)) by {
                if contains_at(name@, query@, i as int) {
                    assert(name@.subrange(i as int, i + query@.len())[k as int]
                        == name@[i + k]);
                }
            }
            return false;
        }
        k = k + 1;
    }
    assert(name@.subrange(i as int, i + query@.len()) =~= query@);
    true
}

/// The names among `names` that contain `q` as a substring, in order.
pub open spec fn matching_names(names: Seq<Seq<char>>, q: Seq<char>) -> Seq<Seq<char>> {
    names.filter(|s: Seq<char>| contains_substring(s, q))
}

/// Keeps exactly the names that contain `query` as a literal substring,
/// in their given order.
pub fn filter_names(names: Vec<String>, query: &str) -> (r: Vec<String>)
    ensures
        views_of(r@) == matching_names(views_of(names@), query@),
{
    let ghost pred = |s: Seq<char>| contains_substring(s, query@);
    let mut r: Vec<String> = Vec::new();
    let mut i: usize = 0;
    proof {
        reveal(Seq::filter);
        assert(views_of(names@).take(0) =~= Seq::<Seq<char>>::empty());
    }
    while i < names.len()
        invariant
            i <= names@.len(),
            pred == (|s: Seq<char>| contains_substring(s, query@)),
            views_of(r@) == views_of(names@).take(i as int).filter(pred),
        decreases names@.len() - i,
    {
        let ghost taken = views_of(names@).take(i as int);
        let keep = name_contains(names[i].as_str(), query);
        proof {
            assert(views_of(names@).take(i + 1) =~= taken.push(names@[i as int]@));
            Seq::filter_distributes_over_add(taken, seq![names@[i as int]@], pred);
            assert(taken + seq![names@[i as int]@] =~= taken.push(names@[i as int]@));
            reveal_with_fuel(Seq::filter, 2);
            assert(seq![names@[i as int]@].drop_last() =~= Seq::<Seq<char>>::empty());
            assert(seq![names@[i as int]@].last() == names@[i as int]@);
            assert(Seq::<Seq<char>>::empty().push(names@[i as int]@) =~= seq![
                names@[i as int]@,
            ]);
            assert(seq![names@[i as int]@].filter(pred) == if pred(names@[i as int]@) {
                seq![names@[i as int]@]
            } else {
                Seq::<Seq<char>>::empty()
            });
        }
        if keep {
            r.push(names[i].clone());
            assert(views_of(r@) =~= taken.filter(pred) + seq![names@[i as int]@]);
        } else {
            assert(views_of(r@) =~= taken.filter(pred) + Seq::<Seq<char>>::empty());
        }
        i = i + 1;
    }
    proof {
        assert(views_of(names@).take(names@.len() as int) =~= views_of(names@));
    }
    r
}

proof fn lemma_filter_is_subset(names: Seq<Seq<char>>, pred: spec_fn(Seq<char>) -> bool)
    ensures
        forall|k: int|
            0 <= k < names.filter(pred).len() ==> names.contains(#[trigger] names.filter(pred)[k]),
    decreases names.len(),
{
    reveal(Seq::filter);
    if names.len() > 0 {
        let head = names.drop_last();
        lemma_filter_is_subset(head, pred);
        assert forall|k: int| 0 <= k < names.filter(pred).len() implies names.contains(
            #[trigger] names.filter(pred)[k],
        ) by {
            let f = names.filter(pred);
            if k < head.filter(pred).len() {
                assert(f[k] == head.filter(pred)[k]);
                let j = choose|j: int| 0 <= j < head.len() && head[j] == f[k];
                assert(names[j] == f[k]);
            } else {
                assert(f[k] == names.last());
                assert(names[names.len() - 1] == f[k]);
            }
        }
    }
}

proof fn lemma_filter_keeps_distinct(names: Seq<Seq<char>>, pred: spec_fn(Seq<char>) -> bool)
    requires
        forall|i: int, j: int| 0 <= i < j < names.len() ==> names[i] != names[j],
    ensures
        forall|i: int, j: int|
            0 <= i < j < names.filter(pred).len() ==> names.filter(pred)[i] != names.filter(
                pred,
            )[j],
    decreases names.len(),
{
    reveal(Seq::filter);
    if names.len() > 0 {
        let head = names.drop_last();
        lemma_filter_keeps_distinct(head, pred);
        lemma_filter_is_subset(head, pred);
        let f = names.filter(pred);
        assert forall|i: int, j: int| 0 <= i < j < f.len() implies f[i] != f[j] by {
            if j < head.filter(pred).len() {
                assert(f[i] == head.filter(pred)[i] && f[j] == head.filter(pred)[j]);
            } else {
                assert(f[j] == names.last());
                assert(f[i] == head.filter(pred)[i]);
                let t = choose|t: int| 0 <= t < head.len() && head[t] == head.filter(pred)[i];
                assert(names[t] != names[names.len() - 1]);
            }
        }
    }
}

/// Soundness and completeness of the substring filter: when the names of
/// the directory entries are pairwise distinct, as the names in one
/// directory are, a name stands in the filtered listing if and only if it
/// is one of the entry names and contains the query as a substring, and the
/// listing holds no name twice — each matching entry appears exactly once.
pub proof fn lemma_matching_names_sound_complete(names: Seq<Seq<char>>, q: Seq<char>)
    requires
        forall|i: int, j: int| 0 <= i < j < names.len() ==> names[i] != names[j],
    ensures
        forall|s: Seq<char>|
            #[trigger] matching_names(names, q).contains(s) <==> (names.contains(s)
                && contains_substring(s, q)),
        forall|i: int, j: int|
            0 <= i < j < matching_names(names, q).len() ==> matching_names(names, q)[i]
                != matching_names(names, q)[j],
{
    let pred = |s: Seq<char>| contains_substring(s, q);
    let f = names.filter(pred);
    lemma_filter_is_subset(names, pred);
    lemma_filter_keeps_distinct(names, pred);
    assert forall|s: Seq<char>| #[trigger] f.contains(s) implies (names.contains(s)
        && contains_substring(s, q)) by {
        let k = choose|k: int| 0 <= k < f.len() && f[k] == s;
        names.lemma_filter_pred(pred, k);
    }
    assert forall|s: Seq<char>| names.contains(s) && contains_substring(s, q) implies #[trigger] f
        .contains(s) by {
        let k = choose|k: int| 0 <= k < names.len() && names[k] == s;
        names.lemma_filter_contains(pred, k);
    }
}

/// What `search` returns for a given scan and query. An empty query yields
/// an empty listing before the directory is even considered; otherwise a
/// missing or unreadable directory fails, a defective entry fails, and the
/// remaining names are filtered by substring containment.
pub open spec fn search_spec(scan: DirectoryScan, q: Seq<char>) -> Result<
    Seq<Seq<char>>,
    AppError,
> {
    if q.len() == 0 {
        Ok(Seq::empty())
    } else {
        match scan {
            DirectoryScan::NotADirectory => Err(AppError::ConfigurationMissing),
            DirectoryScan::ReadFailed(m) => Err(AppError::IOError(m)),
            DirectoryScan::Entries(entries) => match entry_names(entries@) {
                Ok(names) => Ok(matching_names(names, q)),
                Err(e) => Err(e),
            },
        }
    }
}

/// The names in the scanned directory that contain `query` as a literal
/// substring, in enumeration order.
///
/// An empty query returns an empty listing regardless of the scan, even
/// when the base directory is missing. For a non-empty query, a scan of a
/// missing directory fails with `ConfigurationMissing`, a failed
/// enumeration with `IOError`, and a scan whose entries are not all valid
/// text with the error of the first defective entry.
pub fn search(scan: &DirectoryScan, query: &str) -> (r: Result<Vec<String>, AppError>)
    ensures
        match r {
            Ok(v) => search_spec(*scan, query@) == Ok::<Seq<Seq<char>>, AppError>(views_of(v@)),
            Err(e) => search_spec(*scan, query@) == Err::<Seq<Seq<char>>, AppError>(e),
        },
        query@.len() == 0 ==> (r matches Ok(v) && v@.len() == 0),
        query@.len() != 0 && (*scan matches DirectoryScan::NotADirectory) ==> r == Err::<
            Vec<String>,
            AppError,
        >(AppError::ConfigurationMissing),
{
    if query.is_empty() {
        let empty: Vec<String> = Vec::new();
        assert(views_of(empty@) =~= Seq::<Seq<char>>::empty());
        return Ok(empty);
    }
    match scan {
        DirectoryScan::NotADirectory => Err(AppError::ConfigurationMissing),
        DirectoryScan::ReadFailed(m) => Err(AppError::IOError(m.clone())),
        DirectoryScan::Entries(entries) => match collect_names(entries) {
            Ok(names) => Ok(filter_names(names, query)),
            Err(e) => Err(e),
        },
    }
}

} // verus!
