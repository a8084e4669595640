//! Which control groups a set of name patterns stands for.
use crate::pattern::{check_regex, regex_error, regex_is_match, regex_matches};
use crate::text::{lemma_texts_push, same_text, texts};
use std::collections::HashSet;
use vstd::prelude::*;

verus! {

broadcast use vstd::std_specs::hash::group_hash_axioms;

/// What reading one item of a directory gave.
pub enum CgroupEntry {
    /// The item could not be read, for this reason.
    Failed(String),
    /// The item is no directory.
    File,
    /// The item is a directory.
    Dir(CgroupDir),
}

/// A directory of the control group hierarchy as it was read.
pub struct CgroupDir {
    /// Its name, where it has one in UTF-8.
    pub name: Option<String>,
    /// Its inode number, which is the control group's id, or why it could not be read.
    pub id: Result<u64, String>,
    /// Whether it is a directory.
    pub is_dir: bool,
    /// What it holds, or why it could not be listed.
    pub listing: Result<Vec<CgroupEntry>, String>,
}

/// What a search gives: the ids it came upon, and what stopped it before its end.
#[verifier::ext_equal]
pub struct Found {
    pub ids: Set<u64>,
    pub error: Option<Seq<char>>,
}

impl Found {
    /// A search that came upon nothing.
    pub open spec fn nothing() -> Found {
        Found { ids: Set::empty(), error: None }
    }

    /// A search that was stopped at once.
    pub open spec fn stopped(reason: Seq<char>) -> Found {
        Found { ids: Set::empty(), error: Some(reason) }
    }

    /// This search and then the next, which is not made where this one was stopped.
    pub open spec fn then_also(self, next: Found) -> Found {
        if self.error is Some {
            self
        } else {
            Found { ids: self.ids.union(next.ids), error: next.error }
        }
    }
}

/// The search for a directory's own id.
pub open spec fn own_found(d: CgroupDir) -> Found {
    match d.id {
        Ok(id) => Found { ids: set![id], error: None },
        Err(e) => Found::stopped(e@),
    }
}

/// The search for the ids of a directory and of all directories below it.
pub open spec fn dir_found(d: CgroupDir) -> Found
    decreases d,
{
    own_found(d).then_also(
        if d.is_dir {
            match d.listing {
                Ok(v) => entries_found(v@),
                Err(e) => Found::stopped(e@),
            }
        } else {
            Found::nothing()
        },
    )
}

/// The search for the ids of the directories of a listing and of all below them.
pub open spec fn entries_found(es: Seq<CgroupEntry>) -> Found
    decreases es,
{
    if es.len() == 0 {
        Found::nothing()
    } else {
        entries_found(es.drop_last()).then_also(
            match es.last() {
                CgroupEntry::Failed(e) => Found::stopped(e@),
                CgroupEntry::File => Found::nothing(),
                CgroupEntry::Dir(c) => dir_found(c),
            },
        )
    }
}

/// The search below a directory for directories with a wanted name: one with a wanted
/// name is taken with all below it, one with another name is searched in turn, and one
/// without a name is passed over.
pub open spec fn walk_found(d: CgroupDir, wanted: spec_fn(Seq<char>) -> bool) -> Found
    decreases d,
{
    match d.listing {
        Ok(v) => walk_entries_found(v@, wanted),
        Err(e) => Found::stopped(e@),
    }
}

/// The search among the directories of a listing for those with a wanted name.
pub open spec fn walk_entries_found(
    es: Seq<CgroupEntry>,
    wanted: spec_fn(Seq<char>) -> bool,
) -> Found
    decreases es,
{
    if es.len() == 0 {
        Found::nothing()
    } else {
        walk_entries_found(es.drop_last(), wanted).then_also(
            match es.last() {
                CgroupEntry::Failed(e) => Found::stopped(e@),
                CgroupEntry::File => Found::nothing(),
                CgroupEntry::Dir(c) => match c.name {
                    Some(n) => if wanted(n@) {
                        dir_found(c)
                    } else {
                        walk_found(c, wanted)
                    },
                    None => Found::nothing(),
                },
            },
        )
    }
}

/// The names of the directories below a directory, at any depth.
pub open spec fn names_below(d: CgroupDir) -> Set<Seq<char>>
    decreases d,
{
    match d.listing {
        Ok(v) => entry_names(v@),
        Err(_) => Set::empty(),
    }
}

/// The names of the directories of a listing and of all below them.
pub open spec fn entry_names(es: Seq<CgroupEntry>) -> Set<Seq<char>>
    decreases es,
{
    if es.len() == 0 {
        Set::empty()
    } else {
        let before = entry_names(es.drop_last());
        match es.last() {
            CgroupEntry::Dir(c) => {
                let own = match c.name {
                    Some(n) => set![n@],
                    None => Set::empty(),
                };
                before.union(own).union(names_below(c))
            },
            _ => before,
        }
    }
}

/// The names that stand in a list.
pub open spec fn listed(names: Seq<String>) -> spec_fn(Seq<char>) -> bool {
    |n: Seq<char>| texts(names).contains(n)
}

/// The names that a pattern matches.
pub open spec fn matched_by(pattern: Seq<char>) -> spec_fn(Seq<char>) -> bool {
    |n: Seq<char>| regex_is_match(pattern, n)
}

/// The search that one pattern asks for. The pattern `root` stands for the root group
/// alone; another pattern that matches the word `root` stands for the whole hierarchy.
pub open spec fn pattern_found(
    root: CgroupDir,
    pattern: Seq<char>,
    matches_root: bool,
    wanted: spec_fn(Seq<char>) -> bool,
) -> Found {
    if pattern == "root"@ {
        own_found(root)
    } else if matches_root {
        dir_found(root)
    } else {
        walk_found(root, wanted)
    }
}

/// Why control groups could not be looked up.
pub enum CgroupError {
    /// A pattern is no regular expression.
    Pattern(String),
    /// The hierarchy could not be read.
    Read(String),
}

/// The text of a `CgroupError`.
pub enum CgroupErrorText {
    Pattern(Seq<char>),
    Read(Seq<char>),
}

impl CgroupError {
    pub open spec fn view(&self) -> CgroupErrorText {
        match self {
            CgroupError::Pattern(e) => CgroupErrorText::Pattern(e@),
            CgroupError::Read(e) => CgroupErrorText::Read(e@),
        }
    }

    /// What is wrong, in words.
    pub fn message(&self) -> (text: String)
        ensures
            match self@ {
                CgroupErrorText::Pattern(e) => text@ == e,
                CgroupErrorText::Read(e) => text@ == e,
            },
    {
        match self {
            CgroupError::Pattern(e) => e.clone(),
            CgroupError::Read(e) => e.clone(),
        }
    }
}

/// The ids that one pattern stands for, or what goes wrong with it.
pub open spec fn found_by(root: CgroupDir, pattern: Seq<char>) -> Result<
    Set<u64>,
    CgroupErrorText,
> {
    match regex_error(pattern) {
        Some(e) => Err(CgroupErrorText::Pattern(e)),
        None => {
            let found = pattern_found(
                root,
                pattern,
                regex_is_match(pattern, "root"@),
                matched_by(pattern),
            );
            match found.error {
                Some(e) => Err(CgroupErrorText::Read(e)),
                None => Ok(found.ids),
            }
        },
    }
}

/// The ids that a list of patterns stands for, or the first thing that goes wrong when
/// the patterns are taken in order.
pub open spec fn resolved(root: CgroupDir, patterns: Seq<Seq<char>>) -> Result<
    Set<u64>,
    CgroupErrorText,
>
    decreases patterns.len(),
{
    if patterns.len() == 0 {
        Ok(Set::empty())
    } else {
        match resolved(root, patterns.drop_last()) {
            Err(e) => Err(e),
            Ok(ids) => match found_by(root, patterns.last()) {
                Err(e) => Err(e),
                Ok(more) => Ok(ids.union(more)),
            },
        }
    }
}

/// What a search reports: its error, where it was stopped.
pub open spec fn reports(r: Result<(), String>, found: Found) -> bool {
    match r {
        Ok(()) => found.error is None,
        Err(e) => found.error == Some(e@),
    }
}

/// Adds the ids of a directory and of all directories below it.
pub fn collect_cgroup_children_recursive(d: &CgroupDir, cgroup_ids: &mut HashSet<u64>) -> (r:
    Result<(), String>)
    ensures
        final(cgroup_ids)@ == old(cgroup_ids)@.union(dir_found(*d).ids),
        reports(r, dir_found(*d)),
        r is Ok <==> dir_found(*d).error is None,
        r is Err ==> dir_found(*d).error == Some(r->Err_0@),
    decreases d,
{
    let ghost before = cgroup_ids@;
    match &d.id {
        Ok(id) => {
            cgroup_ids.insert(*id);
        },
        Err(e) => {
            assert(cgroup_ids@ =~= before.union(dir_found(*d).ids));
            return Err(e.clone());
        },
    }
    assert(cgroup_ids@ =~= before.union(own_found(*d).ids));
    if d.is_dir {
        match &d.listing {
            Ok(entries) => {
                let mut i: usize = 0;
                assert(entries@.take(0) =~= Seq::empty());
                while i < entries.len()
                    invariant
                        i <= entries.len(),
                        before == old(cgroup_ids)@,
                        d.listing == Ok::<Vec<CgroupEntry>, String>(*entries),
                        d.is_dir,
                        d.id is Ok,
                        own_found(*d).error is None,
                        cgroup_ids@ == before.union(own_found(*d).ids).union(
                            entries_found(entries@.take(i as int)).ids,
                        ),
                        entries_found(entries@.take(i as int)).error is None,
                    decreases entries.len() - i,
                {
                    assert(entries@.take(i + 1).drop_last() =~= entries@.take(i as int));
                    assert(entries@.take(i + 1).last() == entries@[i as int]);
                    match &entries[i] {
                        CgroupEntry::Failed(e) => {
                            proof {
                                lemma_entries_stop(entries@, i + 1);
                            }
                            assert(cgroup_ids@ =~= before.union(dir_found(*d).ids));
                            return Err(e.clone());
                        },
                        CgroupEntry::File => {},
                        CgroupEntry::Dir(child) => {
                            let r = collect_cgroup_children_recursive(child, cgroup_ids);
                            assert(cgroup_ids@ =~= before.union(own_found(*d).ids).union(
                                entries_found(entries@.take(i + 1)).ids,
                            ));
                            if let Err(e) = r {
                                proof {
                                    lemma_entries_stop(entries@, i + 1);
                                }
                                assert(cgroup_ids@ =~= before.union(dir_found(*d).ids));
                                return Err(e);
                            }
                        },
                    }
                    i = i + 1;
                    assert(cgroup_ids@ =~= before.union(own_found(*d).ids).union(
                        entries_found(entries@.take(i as int)).ids,
                    ));
                }
                assert(entries@.take(i as int) =~= entries@);
                assert(cgroup_ids@ =~= before.union(dir_found(*d).ids));
            },
            Err(e) => {
                assert(cgroup_ids@ =~= before.union(dir_found(*d).ids));
                return Err(e.clone());
            },
        }
    } else {
        assert(cgroup_ids@ =~= before.union(dir_found(*d).ids));
    }
    Ok(())
}

/// A search that is stopped among the first items goes no further.
proof fn lemma_entries_stop(es: Seq<CgroupEntry>, n: int)
    requires
        0 <= n <= es.len(),
        entries_found(es.take(n)).error is Some,
    ensures
        entries_found(es) == entries_found(es.take(n)),
    decreases es.len() - n,
{
    if n == es.len() {
        assert(es.take(n) =~= es);
    } else {
        assert(es.take(n + 1).drop_last() =~= es.take(n));
        lemma_entries_stop(es, n + 1);
    }
}

/// A search by name that is stopped among the first items goes no further.
proof fn lemma_walk_stop(es: Seq<CgroupEntry>, wanted: spec_fn(Seq<char>) -> bool, n: int)
    requires
        0 <= n <= es.len(),
        walk_entries_found(es.take(n), wanted).error is Some,
    ensures
        walk_entries_found(es, wanted) == walk_entries_found(es.take(n), wanted),
    decreases es.len() - n,
{
    if n == es.len() {
        assert(es.take(n) =~= es);
    } else {
        assert(es.take(n + 1).drop_last() =~= es.take(n));
        lemma_walk_stop(es, wanted, n + 1);
    }
}

/// Whether a text stands in a list.
fn is_listed(names: &Vec<String>, name: &String) -> (r: bool)
    ensures
        r == texts(names@).contains(name@),
{
    let mut i: usize = 0;
    while i < names.len()
        invariant
            i <= names.len(),
            forall|j: int| 0 <= j < i ==> #[trigger] texts(names@)[j] != name@,
        decreases names.len() - i,
    {
        if names[i] == *name {
            assert(texts(names@)[i as int] == name@);
            return true;
        }
        assert(texts(names@)[i as int] != name@);
        i = i + 1;
    }
    false
}

/// Searches below a directory for directories whose name stands in the list `matching`,
/// and adds the ids of each such directory and of all directories below it.
pub fn walk_cgroups(d: &CgroupDir, matching: &Vec<String>, cgroup_ids: &mut HashSet<u64>) -> (r:
    Result<(), String>)
    ensures
        final(cgroup_ids)@ == old(cgroup_ids)@.union(walk_found(*d, listed(matching@)).ids),
        reports(r, walk_found(*d, listed(matching@))),
        r is Ok <==> walk_found(*d, listed(matching@)).error is None,
        r is Err ==> walk_found(*d, listed(matching@)).error == Some(r->Err_0@),
    decreases d,
{
    let ghost before = cgroup_ids@;
    let ghost wanted = listed(matching@);
    match &d.listing {
        Ok(entries) => {
            let mut i: usize = 0;
            assert(entries@.take(0) =~= Seq::empty());
            assert(cgroup_ids@ =~= before.union(
                walk_entries_found(entries@.take(0), wanted).ids,
            ));
            while i < entries.len()
                invariant
                    i <= entries.len(),
                    before == old(cgroup_ids)@,
                    wanted == listed(matching@),
                    d.listing == Ok::<Vec<CgroupEntry>, String>(*entries),
                    cgroup_ids@ == before.union(
                        walk_entries_found(entries@.take(i as int), wanted).ids,
                    ),
                    walk_entries_found(entries@.take(i as int), wanted).error is None,
                decreases entries.len() - i,
            {
                assert(entries@.take(i + 1).drop_last() =~= entries@.take(i as int));
                assert(entries@.take(i + 1).last() == entries@[i as int]);
                match &entries[i] {
                    CgroupEntry::Failed(e) => {
                        proof {
                            lemma_walk_stop(entries@, wanted, i + 1);
                        }
                        assert(cgroup_ids@ =~= before.union(walk_found(*d, wanted).ids));
                        return Err(e.clone());
                    },
                    CgroupEntry::File => {},
                    CgroupEntry::Dir(child) => {
                        if let Some(name) = &child.name {
                            let r = if is_listed(matching, name) {
                                collect_cgroup_children_recursive(child, cgroup_ids)
                            } else {
                                walk_cgroups(child, matching, cgroup_ids)
                            };
                            assert(cgroup_ids@ =~= before.union(
                                walk_entries_found(entries@.take(i + 1), wanted).ids,
                            ));
                            if let Err(e) = r {
                                proof {
                                    lemma_walk_stop(entries@, wanted, i + 1);
                                }
                                assert(cgroup_ids@ =~= before.union(walk_found(*d, wanted).ids));
                                return Err(e);
                            }
                        }
                    },
                }
                i = i + 1;
                assert(cgroup_ids@ =~= before.union(
                    walk_entries_found(entries@.take(i as int), wanted).ids,
                ));
            }
            assert(entries@.take(i as int) =~= entries@);
            Ok(())
        },
        Err(e) => {
            assert(cgroup_ids@ =~= before.union(walk_found(*d, wanted).ids));
            Err(e.clone())
        },
    }
}

/// Adds the ids that one pattern stands for, given whether the pattern matches the word
/// `root` and which names it matches.
pub fn collect_matches(
    root: &CgroupDir,
    pattern: &str,
    matches_root: bool,
    matching: &Vec<String>,
    cgroup_ids: &mut HashSet<u64>,
) -> (r: Result<(), String>)
    ensures
        ({
            let found = pattern_found(*root, pattern@, matches_root, listed(matching@));
            &&& final(cgroup_ids)@ == old(cgroup_ids)@.union(found.ids)
            &&& reports(r, found)
            &&& r is Ok <==> found.error is None
            &&& r is Err ==> found.error == Some(r->Err_0@)
        }),
{
    let ghost before = cgroup_ids@;
    if same_text(pattern, "root") {
        match &root.id {
            Ok(id) => {
                cgroup_ids.insert(*id);
                assert(cgroup_ids@ =~= before.union(own_found(*root).ids));
                Ok(())
            },
            Err(e) => {
                assert(cgroup_ids@ =~= before.union(own_found(*root).ids));
                Err(e.clone())
            },
        }
    } else if matches_root {
        collect_cgroup_children_recursive(root, cgroup_ids)
    } else {
        walk_cgroups(root, matching, cgroup_ids)
    }
}

/// Adds to `names` the names below a directory that a pattern matches.
fn matching_names(d: &CgroupDir, pattern: &str, names: &mut Vec<String>)
    requires
        regex_error(pattern@) is None,
    ensures
        forall|n: Seq<char>| #[trigger]
            texts(final(names)@).contains(n) <==> texts(old(names)@).contains(n) || (names_below(
                *d,
            ).contains(n) && regex_is_match(pattern@, n)),
    decreases d,
{
    let ghost before = texts(names@);
    if let Ok(entries) = &d.listing {
        let mut i: usize = 0;
        assert(entries@.take(0) =~= Seq::empty());
        while i < entries.len()
            invariant
                i <= entries.len(),
                regex_error(pattern@) is None,
                d.listing == Ok::<Vec<CgroupEntry>, String>(*entries),
                forall|n: Seq<char>| #[trigger]
                    texts(names@).contains(n) <==> before.contains(n) || (entry_names(
                        entries@.take(i as int),
                    ).contains(n) && regex_is_match(pattern@, n)),
            decreases entries.len() - i,
        {
            assert(entries@.take(i + 1).drop_last() =~= entries@.take(i as int));
            assert(entries@.take(i + 1).last() == entries@[i as int]);
            if let CgroupEntry::Dir(child) = &entries[i] {
                if let Some(name) = &child.name {
                    if regex_matches(pattern, name.as_str()) {
                        let ghost prior = names@;
                        names.push(name.clone());
                        proof {
                            lemma_texts_push(prior, *name);
                            assert forall|n: Seq<char>| #[trigger]
                                texts(names@).contains(n) <==> texts(prior).contains(n) || n
                                    == name@ by {
                                lemma_push_contains(texts(prior), name@, n);
                            }
                        }
                    }
                }
                assert(decreases_to!(d.listing => d.listing->Ok_0));
                matching_names(child, pattern, names);
            }
            i = i + 1;
        }
        assert(entries@.take(i as int) =~= entries@);
    }
}

/// What stands in a list that grows by one.
proof fn lemma_push_contains(list: Seq<Seq<char>>, added: Seq<char>, n: Seq<char>)
    ensures
        list.push(added).contains(n) <==> list.contains(n) || n == added,
{
    let grown = list.push(added);
    if list.contains(n) {
        let i = choose|i: int| 0 <= i < list.len() && list[i] == n;
        assert(grown[i] == n);
    }
    if n == added {
        assert(grown[list.len() as int] == n);
    }
    if grown.contains(n) {
        let i = choose|i: int| 0 <= i < grown.len() && grown[i] == n;
        if i < list.len() {
            assert(list[i] == n);
        }
    }
}

/// A search by name depends only on which of the names below the directory are wanted.
proof fn lemma_walk_agrees(
    d: CgroupDir,
    a: spec_fn(Seq<char>) -> bool,
    b: spec_fn(Seq<char>) -> bool,
)
    requires
        forall|n: Seq<char>| #[trigger] names_below(d).contains(n) ==> a(n) == b(n),
    ensures
        walk_found(d, a) == walk_found(d, b),
    decreases d,
{
    match d.listing {
        Ok(v) => {
            assert(names_below(d) == entry_names(v@));
            lemma_walk_entries_agree(v@, a, b);
        },
        Err(_) => {},
    }
}

proof fn lemma_walk_entries_agree(
    es: Seq<CgroupEntry>,
    a: spec_fn(Seq<char>) -> bool,
    b: spec_fn(Seq<char>) -> bool,
)
    requires
        forall|n: Seq<char>| #[trigger] entry_names(es).contains(n) ==> a(n) == b(n),
    ensures
        walk_entries_found(es, a) == walk_entries_found(es, b),
    decreases es,
{
    if es.len() > 0 {
        assert forall|n: Seq<char>| #[trigger]
            entry_names(es.drop_last()).contains(n) implies a(n) == b(n) by {
            assert(entry_names(es).contains(n));
        }
        lemma_walk_entries_agree(es.drop_last(), a, b);
        match es.last() {
            CgroupEntry::Dir(c) => {
                match c.name {
                    Some(n) => {
                        assert(entry_names(es).contains(n@));
                    },
                    None => {},
                }
                assert forall|n: Seq<char>| #[trigger] names_below(c).contains(n) implies a(n)
                    == b(n) by {
                    assert(entry_names(es).contains(n));
                }
                lemma_walk_agrees(c, a, b);
            },
            _ => {},
        }
    }
}

/// Looks up the control groups that a list of patterns stands for, in a hierarchy that
/// was read from its root.
pub fn resolve_cgroup_ids(cgroup_patterns: &Vec<String>, root: &CgroupDir) -> (r: Result<
    HashSet<u64>,
    CgroupError,
>)
    ensures
        match r {
            Ok(ids) => resolved(*root, texts(cgroup_patterns@)) == Ok::<_, CgroupErrorText>(ids@),
            Err(e) => resolved(*root, texts(cgroup_patterns@)) == Err::<Set<u64>, _>(e@),
        },
        match r {
            Ok(_) => true,
            Err(CgroupError::Pattern(e)) => resolved(*root, texts(cgroup_patterns@)) == Err::<
                Set<u64>,
                _,
            >(CgroupErrorText::Pattern(e@)),
            Err(CgroupError::Read(e)) => resolved(*root, texts(cgroup_patterns@)) == Err::<
                Set<u64>,
                _,
            >(CgroupErrorText::Read(e@)),
        },
{
    let mut all_cgroup_ids: HashSet<u64> = HashSet::new();
    let ghost patterns = texts(cgroup_patterns@);
    let mut i: usize = 0;
    while i < cgroup_patterns.len()
        invariant
            i <= cgroup_patterns.len(),
            patterns == texts(cgroup_patterns@),
            resolved(*root, patterns.take(i as int)) == Ok::<_, CgroupErrorText>(all_cgroup_ids@),
        decreases cgroup_patterns.len() - i,
    {
        let pattern = cgroup_patterns[i].as_str();
        assert(patterns.take(i + 1).drop_last() =~= patterns.take(i as int));
        assert(patterns.take(i + 1).last() == pattern@);
        if let Err(e) = check_regex(pattern) {
            proof {
                lemma_resolved_stop(*root, patterns, i + 1);
            }
            return Err(CgroupError::Pattern(e));
        }
        let matches_root = regex_matches(pattern, "root");
        let mut matching: Vec<String> = Vec::new();
        if !matches_root {
            matching_names(root, pattern, &mut matching);
            proof {
                assert forall|n: Seq<char>| #[trigger]
                    names_below(*root).contains(n) implies listed(matching@)(n) == matched_by(
                    pattern@,
                )(n) by {
                    assert(texts(matching@).contains(n) <==> regex_is_match(pattern@, n));
                }
                lemma_walk_agrees(*root, listed(matching@), matched_by(pattern@));
            }
        }
        if let Err(e) = collect_matches(
            root,
            pattern,
            matches_root,
            &matching,
            &mut all_cgroup_ids,
        ) {
            proof {
                lemma_resolved_stop(*root, patterns, i + 1);
            }
            return Err(CgroupError::Read(e));
        }
        i = i + 1;
    }
    assert(patterns.take(i as int) =~= patterns);
    Ok(all_cgroup_ids)
}

/// What goes wrong with the first patterns is what goes wrong.
proof fn lemma_resolved_stop(root: CgroupDir, patterns: Seq<Seq<char>>, n: int)
    requires
        0 <= n <= patterns.len(),
        resolved(root, patterns.take(n)) is Err,
    ensures
        resolved(root, patterns) == resolved(root, patterns.take(n)),
    decreases patterns.len() - n,
{
    if n == patterns.len() {
        assert(patterns.take(n) =~= patterns);
    } else {
        assert(patterns.take(n + 1).drop_last() =~= patterns.take(n));
        lemma_resolved_stop(root, patterns, n + 1);
    }
}

/// Puts a number in its place in a strictly ascending list, unless it is there already.
fn insert_in_order(list: &mut Vec<u64>, x: u64)
    requires
        ascending(old(list)@),
    ensures
        ascending(final(list)@),
        final(list)@.to_set() == old(list)@.to_set().insert(x),
{
    let ghost before = list@;
    let mut at: usize = 0;
    while at < list.len() && list[at] < x
        invariant
            at <= list.len(),
            list@ == before,
            forall|i: int| 0 <= i < at ==> #[trigger] list@[i] < x,
        decreases list.len() - at,
    {
        at = at + 1;
    }
    if at < list.len() && list[at] == x {
        assert(before[at as int] == x);
        assert(before.to_set().insert(x) =~= before.to_set());
    } else {
        list.insert(at, x);
        proof {
            let after = list@;
            assert(after == before.insert(at as int, x));
            assert forall|y: u64| #[trigger] after.contains(y) <==> before.contains(y) || y
                == x by {
                if before.contains(y) {
                    let i = choose|i: int| 0 <= i < before.len() && before[i] == y;
                    if i < at {
                        assert(after[i] == y);
                    } else {
                        assert(after[i + 1] == y);
                    }
                }
                if y == x {
                    assert(after[at as int] == y);
                }
                if after.contains(y) {
                    let i = choose|i: int| 0 <= i < after.len() && after[i] == y;
                    if i < at {
                        assert(before[i] == y);
                    } else if i > at {
                        assert(before[i - 1] == y);
                    }
                }
            }
            assert(after.to_set() =~= before.to_set().insert(x));
        }
    }
}

/// Each number is larger than those before it.
pub open spec fn ascending(list: Seq<u64>) -> bool {
    forall|i: int, j: int| 0 <= i < j < list.len() ==> list[i] < list[j]
}

/// The ids in ascending order, each once.
pub fn sorted_ids(ids: &HashSet<u64>) -> (list: Vec<u64>)
    ensures
        list@.to_set() == ids@,
        ascending(list@),
        forall|i: int, j: int| 0 <= i < j < list@.len() ==> list@[i] < list@[j],
{
    let mut list: Vec<u64> = Vec::new();
    assert(list@.to_set() =~= Set::empty());
    for id in iter: ids.iter()
        invariant
            ascending(list@),
            iter.seq().unref().to_set() == ids@,
            forall|x: u64|
                list@.to_set().contains(x) <==> (exists|j: int|
                    0 <= j < iter.index() && #[trigger] iter.seq().unref()[j] == x),
    {
        let ghost before = list@.to_set();
        insert_in_order(&mut list, *id);
        assert forall|x: u64| list@.to_set().contains(x) implies (exists|j: int|
            0 <= j < iter.index() + 1 && #[trigger] iter.seq().unref()[j] == x) by {
            if x == *id {
                assert(iter.seq().unref()[iter.index() as int] == x);
            } else {
                assert(before.contains(x));
            }
        }
    }
    assert(list@.to_set() =~= ids@);
    list
}

/// `c` is the directory `d` itself or one below it.
pub open spec fn within(c: CgroupDir, d: CgroupDir) -> bool
    decreases d,
{
    c == d || (d.is_dir && match d.listing {
        Ok(v) => within_entries(c, v@),
        Err(_) => false,
    })
}

/// `c` is a directory of the listing or one below such a directory.
pub open spec fn within_entries(c: CgroupDir, es: Seq<CgroupEntry>) -> bool
    decreases es,
{
    es.len() > 0 && (within_entries(c, es.drop_last()) || match es.last() {
        CgroupEntry::Dir(x) => within(c, x),
        _ => false,
    })
}

/// A complete search of a directory finds the id of every directory in it, and no other
/// id.
pub proof fn law_search_is_complete(d: CgroupDir, id: u64)
    requires
        dir_found(d).error is None,
    ensures
        dir_found(d).ids.contains(id) <==> exists|c: CgroupDir| #[trigger]
            within(c, d) && c.id == Ok::<u64, String>(id),
    decreases d,
{
    let here = d.id == Ok::<u64, String>(id);
    if here {
        assert(within(d, d));
    }
    if d.is_dir {
        let es = d.listing->Ok_0@;
        lemma_entries_search_is_complete(es, id);
        if entries_found(es).ids.contains(id) {
            let c = choose|c: CgroupDir| #[trigger]
                within_entries(c, es) && c.id == Ok::<u64, String>(id);
            assert(within(c, d));
        }
        if exists|c: CgroupDir| #[trigger] within(c, d) && c.id == Ok::<u64, String>(id) {
            let c = choose|c: CgroupDir| #[trigger]
                within(c, d) && c.id == Ok::<u64, String>(id);
            if c != d {
                assert(within_entries(c, es));
            }
        }
    }
}

proof fn lemma_entries_search_is_complete(es: Seq<CgroupEntry>, id: u64)
    requires
        entries_found(es).error is None,
    ensures
        entries_found(es).ids.contains(id) <==> exists|c: CgroupDir| #[trigger]
            within_entries(c, es) && c.id == Ok::<u64, String>(id),
    decreases es,
{
    if es.len() > 0 {
        let init = es.drop_last();
        lemma_entries_search_is_complete(init, id);
        if entries_found(init).ids.contains(id) {
            let c = choose|c: CgroupDir| #[trigger]
                within_entries(c, init) && c.id == Ok::<u64, String>(id);
            assert(within_entries(c, es));
        }
        if let CgroupEntry::Dir(x) = es.last() {
            law_search_is_complete(x, id);
            if dir_found(x).ids.contains(id) {
                let c = choose|c: CgroupDir| #[trigger]
                    within(c, x) && c.id == Ok::<u64, String>(id);
                assert(within_entries(c, es));
            }
        }
        if exists|c: CgroupDir| #[trigger] within_entries(c, es) && c.id == Ok::<u64, String>(id) {
            let c = choose|c: CgroupDir| #[trigger]
                within_entries(c, es) && c.id == Ok::<u64, String>(id);
            assert(within_entries(c, init) || within(c, es.last()->Dir_0));
        }
    }
}

/// `t` has a wanted name, and the way down from `d` to it meets only named directories
/// whose names are not wanted.
pub open spec fn reached(t: CgroupDir, d: CgroupDir, wanted: spec_fn(Seq<char>) -> bool) -> bool
    decreases d,
{
    match d.listing {
        Ok(v) => reached_entries(t, v@, wanted),
        Err(_) => false,
    }
}

/// `t` is reached from one of the directories of the listing, or is one.
pub open spec fn reached_entries(
    t: CgroupDir,
    es: Seq<CgroupEntry>,
    wanted: spec_fn(Seq<char>) -> bool,
) -> bool
    decreases es,
{
    es.len() > 0 && (reached_entries(t, es.drop_last(), wanted) || match es.last() {
        CgroupEntry::Dir(x) => match x.name {
            Some(n) => if wanted(n@) {
                t == x
            } else {
                reached(t, x, wanted)
            },
            None => false,
        },
        _ => false,
    })
}

/// A search by name finds exactly the ids of the directories that it reaches and of all
/// directories below those.
pub proof fn law_walk_takes_whole_subtrees(
    d: CgroupDir,
    wanted: spec_fn(Seq<char>) -> bool,
    id: u64,
)
    requires
        walk_found(d, wanted).error is None,
    ensures
        walk_found(d, wanted).ids.contains(id) <==> exists|t: CgroupDir| #[trigger]
            reached(t, d, wanted) && dir_found(t).ids.contains(id),
    decreases d,
{
    let es = d.listing->Ok_0@;
    lemma_walk_entries_take_subtrees(es, wanted, id);
    if walk_found(d, wanted).ids.contains(id) {
        let t = choose|t: CgroupDir| #[trigger]
            reached_entries(t, es, wanted) && dir_found(t).ids.contains(id);
        assert(reached(t, d, wanted));
    }
    if exists|t: CgroupDir| #[trigger] reached(t, d, wanted) && dir_found(t).ids.contains(id) {
        let t = choose|t: CgroupDir| #[trigger]
            reached(t, d, wanted) && dir_found(t).ids.contains(id);
        assert(reached_entries(t, es, wanted));
    }
}

proof fn lemma_walk_entries_take_subtrees(
    es: Seq<CgroupEntry>,
    wanted: spec_fn(Seq<char>) -> bool,
    id: u64,
)
    requires
        walk_entries_found(es, wanted).error is None,
    ensures
        walk_entries_found(es, wanted).ids.contains(id) <==> exists|t: CgroupDir| #[trigger]
            reached_entries(t, es, wanted) && dir_found(t).ids.contains(id),
    decreases es,
{
    if es.len() > 0 {
        let init = es.drop_last();
        lemma_walk_entries_take_subtrees(init, wanted, id);
        if walk_entries_found(init, wanted).ids.contains(id) {
            let t = choose|t: CgroupDir| #[trigger]
                reached_entries(t, init, wanted) && dir_found(t).ids.contains(id);
            assert(reached_entries(t, es, wanted));
        }
        if let CgroupEntry::Dir(x) = es.last() {
            if let Some(n) = x.name {
                if wanted(n@) {
                    assert(reached_entries(x, es, wanted));
                } else {
                    law_walk_takes_whole_subtrees(x, wanted, id);
                    if walk_found(x, wanted).ids.contains(id) {
                        let t = choose|t: CgroupDir| #[trigger]
                            reached(t, x, wanted) && dir_found(t).ids.contains(id);
                        assert(reached_entries(t, es, wanted));
                    }
                }
            }
        }
        if exists|t: CgroupDir| #[trigger]
            reached_entries(t, es, wanted) && dir_found(t).ids.contains(id) {
            let t = choose|t: CgroupDir| #[trigger]
                reached_entries(t, es, wanted) && dir_found(t).ids.contains(id);
            if !reached_entries(t, init, wanted) {
                let x = es.last()->Dir_0;
                assert(t == x || reached(t, x, wanted));
            }
        }
    }
}

/// One more pattern never takes an id away, and never undoes an error.
pub proof fn law_patterns_only_add(root: CgroupDir, patterns: Seq<Seq<char>>, more: Seq<char>)
    ensures
        match resolved(root, patterns.push(more)) {
            Ok(ids) => {
                &&& resolved(root, patterns) is Ok
                &&& resolved(root, patterns)->Ok_0.subset_of(ids)
            },
            Err(_) => true,
        },
        resolved(root, patterns) is Err ==> resolved(root, patterns.push(more)) == resolved(
            root,
            patterns,
        ),
{
    assert(patterns.push(more).drop_last() =~= patterns);
}

/// A list of patterns followed by another stands for the ids of both; what goes wrong with
/// the first list, and else what goes wrong with the second, is what goes wrong.
pub proof fn law_lists_of_patterns_unite(
    root: CgroupDir,
    first: Seq<Seq<char>>,
    second: Seq<Seq<char>>,
)
    ensures
        resolved(root, first + second) == (match (resolved(root, first), resolved(root, second)) {
            (Ok(a), Ok(b)) => Ok(a.union(b)),
            (Err(e), _) => Err(e),
            (Ok(_), Err(e)) => Err(e),
        }),
    decreases second.len(),
{
    let all = first + second;
    if second.len() == 0 {
        assert(all =~= first);
        if let Ok(a) = resolved(root, first) {
            assert(a.union(Set::empty()) =~= a);
        }
    } else {
        let init = second.drop_last();
        law_lists_of_patterns_unite(root, first, init);
        assert(all.drop_last() =~= first + init);
        assert(all.last() == second.last());
        if let (Ok(a), Ok(b), Ok(more)) = (
            resolved(root, first),
            resolved(root, init),
            found_by(root, second.last()),
        ) {
            assert(a.union(b).union(more) =~= a.union(b.union(more)));
        }
    }
}

/// What a list of patterns stands for is what its patterns stand for, each for itself.
proof fn lemma_resolved_is_union(root: CgroupDir, patterns: Seq<Seq<char>>, id: u64)
    ensures
        resolved(root, patterns) is Ok <==> forall|p: Seq<char>| #[trigger]
            patterns.contains(p) ==> found_by(root, p) is Ok,
        resolved(root, patterns) is Ok ==> (resolved(root, patterns)->Ok_0.contains(id)
            <==> exists|p: Seq<char>| #[trigger]
            patterns.contains(p) && found_by(root, p)->Ok_0.contains(id)),
    decreases patterns.len(),
{
    if patterns.len() > 0 {
        let init = patterns.drop_last();
        let last = patterns.last();
        lemma_resolved_is_union(root, init, id);
        assert(init.push(last) =~= patterns);
        assert forall|p: Seq<char>| #[trigger]
            patterns.contains(p) <==> init.contains(p) || p == last by {
            lemma_push_contains(init, last, p);
        }
        assert(patterns.contains(last));
        assert forall|p: Seq<char>| init.contains(p) implies #[trigger] patterns.contains(p) by {}
        if resolved(root, patterns) is Ok && resolved(root, init)->Ok_0.contains(id) {
            let p = choose|p: Seq<char>| #[trigger]
                init.contains(p) && found_by(root, p)->Ok_0.contains(id);
            assert(patterns.contains(p));
        }
        if resolved(root, init) is Err {
            let p = choose|p: Seq<char>| #[trigger]
                init.contains(p) && !(found_by(root, p) is Ok);
            assert(patterns.contains(p));
        }
    }
}

/// Neither the order of the patterns nor a repetition matters: lists of the same patterns
/// stand for the same ids, and both go wrong or neither does.
pub proof fn law_order_and_repetition_do_not_matter(
    root: CgroupDir,
    first: Seq<Seq<char>>,
    second: Seq<Seq<char>>,
)
    requires
        forall|p: Seq<char>| #[trigger] first.contains(p) <==> second.contains(p),
    ensures
        resolved(root, first) is Ok <==> resolved(root, second) is Ok,
        resolved(root, first) is Ok ==> resolved(root, first) == resolved(root, second),
{
    lemma_resolved_is_union(root, first, 0);
    lemma_resolved_is_union(root, second, 0);
    assert forall|p: Seq<char>| #[trigger] second.contains(p) implies first.contains(p) by {}
    if resolved(root, first) is Ok && resolved(root, second) is Ok {
        let a = resolved(root, first)->Ok_0;
        let b = resolved(root, second)->Ok_0;
        assert forall|id: u64| a.contains(id) <==> b.contains(id) by {
            lemma_resolved_is_union(root, first, id);
            lemma_resolved_is_union(root, second, id);
        }
        assert(a =~= b);
    }
}

/// The pattern `root` stands for the root group alone, whatever the hierarchy holds.
pub proof fn law_root_stands_for_itself(root: CgroupDir, id: u64)
    requires
        regex_error("root"@) is None,
        root.id == Ok::<u64, String>(id),
    ensures
        resolved(root, seq!["root"@]) == Ok::<Set<u64>, CgroupErrorText>(set![id]),
{
    reveal_with_fuel(resolved, 2);
    let one = seq!["root"@];
    assert(one.drop_last() =~= Seq::empty());
    assert(Set::<u64>::empty().union(set![id]) =~= set![id]);
}

/// `c` is one of the directories that `d` was found to hold.
pub open spec fn is_child(c: CgroupDir, d: CgroupDir) -> bool {
    match d.listing {
        Ok(v) => v@.contains(CgroupEntry::Dir(c)),
        Err(_) => false,
    }
}

/// The directory at a position of a way holds the next one.
pub open spec fn is_step(way: Seq<CgroupDir>, i: int) -> bool {
    is_child(way[i + 1], way[i])
}

/// A way from a directory down to itself or to one below it.
pub open spec fn is_way_down(way: Seq<CgroupDir>, from: CgroupDir) -> bool {
    &&& way.len() > 0
    &&& way[0] == from
    &&& forall|i: int| 0 <= i < way.len() - 1 ==> #[trigger] is_step(way, i) && way[i].is_dir
}

/// A way from the root down to a directory, on which every directory behind the root and
/// before the last has a name that the pattern does not match.
pub open spec fn is_way_past(way: Seq<CgroupDir>, root: CgroupDir, pattern: Seq<char>) -> bool {
    &&& way.len() > 0
    &&& way[0] == root
    &&& forall|i: int| 0 <= i < way.len() - 1 ==> #[trigger] is_step(way, i)
    &&& forall|i: int|
        0 < i < way.len() - 1 ==> (#[trigger] way[i]).name is Some && !regex_is_match(
            pattern,
            way[i].name->0@,
        )
}

/// A directory has a name that the pattern matches.
pub open spec fn is_named_by(d: CgroupDir, pattern: Seq<char>) -> bool {
    d.name is Some && regex_is_match(pattern, d.name->0@)
}

/// A directory cannot be listed, or one of its items cannot be read, for this reason.
pub open spec fn is_unlisted(d: CgroupDir, reason: Seq<char>) -> bool {
    match d.listing {
        Ok(v) => exists|e: String| #[trigger]
            v@.contains(CgroupEntry::Failed(e)) && e@ == reason,
        Err(e) => e@ == reason,
    }
}

/// The id of a directory or what it holds cannot be read, for this reason.
pub open spec fn is_unreadable(d: CgroupDir, reason: Seq<char>) -> bool {
    ||| (d.id is Err && d.id->Err_0@ == reason)
    ||| (d.is_dir && is_unlisted(d, reason))
}

/// Where a search by a pattern succeeds, it has taken every directory whose name the pattern
/// matches and that is met on the way down from the root, and every directory below such a
/// one; all of them could be read. So could the listings of the directories on the way.
pub proof fn law_matching_groups_are_taken(
    root: CgroupDir,
    patterns: Seq<Seq<char>>,
    pattern: Seq<char>,
    way: Seq<CgroupDir>,
    below: Seq<CgroupDir>,
)
    requires
        resolved(root, patterns) is Ok,
        patterns.contains(pattern),
        pattern != "root"@,
        !regex_is_match(pattern, "root"@),
        is_way_past(way, root, pattern),
        is_way_down(below, way.last()),
    ensures
        way.len() > 1 && is_named_by(way.last(), pattern) ==> {
            &&& below.last().id is Ok
            &&& resolved(root, patterns)->Ok_0.contains(below.last().id->Ok_0)
            &&& forall|e: Seq<char>| !#[trigger] is_unreadable(below.last(), e)
        },
        way.len() == 1 || (way.last().name is Some && !is_named_by(way.last(), pattern))
            ==> forall|e: Seq<char>| !#[trigger] is_unlisted(way.last(), e),
{
    lemma_resolved_is_union(root, patterns, 0);
    assert(found_by(root, pattern) is Ok);
    let wanted = |n: Seq<char>| regex_is_match(pattern, n);
    lemma_walk_agrees(root, matched_by(pattern), wanted);
    lemma_way_is_walked(root, pattern, wanted, way);
    if way.len() > 1 && is_named_by(way.last(), pattern) {
        lemma_way_is_taken(way.last(), below);
        if below.last().id is Ok {
            lemma_resolved_is_union(root, patterns, below.last().id->Ok_0);
        }
    } else if way.len() == 1 || way.last().name is Some {
        assert forall|e: Seq<char>| !#[trigger] is_unlisted(way.last(), e) by {
            lemma_walked_is_listed(way.last(), wanted, e);
        }
    }
}

/// What a search by a pattern takes lies in a directory whose name the pattern matches and
/// that is met on the way down from the root.
pub proof fn law_only_matching_groups_are_taken(root: CgroupDir, pattern: Seq<char>, id: u64)
    requires
        resolved(root, seq![pattern]) is Ok,
        pattern != "root"@,
        !regex_is_match(pattern, "root"@),
        resolved(root, seq![pattern])->Ok_0.contains(id),
    ensures
        exists|way: Seq<CgroupDir>, below: Seq<CgroupDir>|
            {
                &&& #[trigger] is_way_past(way, root, pattern)
                &&& way.len() > 1
                &&& is_named_by(way.last(), pattern)
                &&& #[trigger] is_way_down(below, way.last())
                &&& below.last().id == Ok::<u64, String>(id)
            },
{
    lemma_one_pattern(root, pattern);
    let wanted = |n: Seq<char>| regex_is_match(pattern, n);
    lemma_walk_agrees(root, matched_by(pattern), wanted);
    lemma_walked_has_way(root, pattern, wanted, id);
    let (way, below) = choose|way: Seq<CgroupDir>, below: Seq<CgroupDir>|
        {
            &&& #[trigger] is_way_past(way, root, pattern)
            &&& way.len() > 1
            &&& is_named_by(way.last(), pattern)
            &&& #[trigger] is_way_down(below, way.last())
            &&& below.last().id == Ok::<u64, String>(id)
        };
    assert(is_way_past(way, root, pattern) && is_way_down(below, way.last()));
}

/// A search by a pattern fails only where something that it meets cannot be read, and says
/// why that is.
pub proof fn law_a_failed_search_met_a_failure(
    root: CgroupDir,
    pattern: Seq<char>,
    reason: Seq<char>,
)
    requires
        resolved(root, seq![pattern]) == Err::<Set<u64>, _>(CgroupErrorText::Read(reason)),
        pattern != "root"@,
        !regex_is_match(pattern, "root"@),
    ensures
        regex_error(pattern) is None,
        exists|way: Seq<CgroupDir>, below: Seq<CgroupDir>|
            {
                &&& #[trigger] is_way_past(way, root, pattern)
                &&& #[trigger] is_way_down(below, way.last())
                &&& if way.len() > 1 && is_named_by(way.last(), pattern) {
                    is_unreadable(below.last(), reason)
                } else {
                    (way.len() == 1 || way.last().name is Some) && is_unlisted(way.last(), reason)
                }
            },
{
    lemma_one_pattern(root, pattern);
    let wanted = |n: Seq<char>| regex_is_match(pattern, n);
    lemma_walk_agrees(root, matched_by(pattern), wanted);
    lemma_walk_fails_somewhere(root, pattern, wanted, reason);
    let (way, below) = choose|way: Seq<CgroupDir>, below: Seq<CgroupDir>|
        walk_failure(root, pattern, reason, way, below);
    assert(is_way_past(way, root, pattern) && is_way_down(below, way.last()));
}

/// A pattern that is not the word `root` but matches it stands for the whole hierarchy: for
/// every directory on any way down from the root, and for no other.
pub proof fn law_matching_root_takes_everything(
    root: CgroupDir,
    pattern: Seq<char>,
    below: Seq<CgroupDir>,
    id: u64,
    reason: Seq<char>,
)
    requires
        regex_error(pattern) is None,
        pattern != "root"@,
        regex_is_match(pattern, "root"@),
    ensures
        resolved(root, seq![pattern]) is Ok && is_way_down(below, root) ==> {
            &&& below.last().id is Ok
            &&& resolved(root, seq![pattern])->Ok_0.contains(below.last().id->Ok_0)
            &&& forall|e: Seq<char>| !#[trigger] is_unreadable(below.last(), e)
        },
        resolved(root, seq![pattern]) is Ok && resolved(root, seq![pattern])->Ok_0.contains(id)
            ==> exists|way: Seq<CgroupDir>| #[trigger]
            is_way_down(way, root) && way.last().id == Ok::<u64, String>(id),
        resolved(root, seq![pattern]) is Err ==> resolved(root, seq![pattern])->Err_0 is Read,
        resolved(root, seq![pattern]) == Err::<Set<u64>, _>(CgroupErrorText::Read(reason))
            ==> exists|way: Seq<CgroupDir>| #[trigger]
            is_way_down(way, root) && is_unreadable(way.last(), reason),
{
    lemma_one_pattern(root, pattern);
    if resolved(root, seq![pattern]) is Ok {
        if is_way_down(below, root) {
            lemma_way_is_taken(root, below);
        }
        if resolved(root, seq![pattern])->Ok_0.contains(id) {
            lemma_taken_has_way(root, id);
        }
    } else if resolved(root, seq![pattern]) == Err::<Set<u64>, _>(CgroupErrorText::Read(reason)) {
        lemma_search_fails_somewhere(root, reason);
    }
}

/// A pattern that is no regular expression is the error, whatever the hierarchy holds; and
/// where the id of the root cannot be read, so is that for the pattern `root`.
pub proof fn law_errors_of_one_pattern(root: CgroupDir, pattern: Seq<char>)
    ensures
        regex_error(pattern) is Some ==> resolved(root, seq![pattern]) == Err::<Set<u64>, _>(
            CgroupErrorText::Pattern(regex_error(pattern)->0),
        ),
        regex_error(pattern) is None && pattern == "root"@ && root.id is Err ==> resolved(
            root,
            seq![pattern],
        ) == Err::<Set<u64>, _>(CgroupErrorText::Read(root.id->Err_0@)),
        regex_error(pattern) is None && resolved(root, seq![pattern]) is Err ==> resolved(
            root,
            seq![pattern],
        )->Err_0 is Read,
        resolved(root, Seq::empty()) == Ok::<Set<u64>, CgroupErrorText>(Set::empty()),
{
    lemma_one_pattern(root, pattern);
}

/// The first item of a directory that cannot be read or searched ends the search: its reason
/// is what is reported, and what stands behind it does not matter.
pub proof fn law_first_failure_ends_the_search(
    d: CgroupDir,
    other: CgroupDir,
    i: int,
    reason: Seq<char>,
)
    requires
        d.id is Ok,
        d.id == other.id,
        d.is_dir && other.is_dir,
        d.listing is Ok && other.listing is Ok,
        0 <= i < d.listing->Ok_0@.len(),
        i < other.listing->Ok_0@.len(),
        forall|j: int|
            0 <= j <= i ==> #[trigger] d.listing->Ok_0@[j] == other.listing->Ok_0@[j],
        match d.listing->Ok_0@[i] {
            CgroupEntry::Failed(e) => e@ == reason,
            CgroupEntry::File => false,
            CgroupEntry::Dir(c) => dir_found(c).error == Some(reason),
        },
        forall|j: int|
            0 <= j < i ==> match #[trigger] d.listing->Ok_0@[j] {
                CgroupEntry::Failed(_) => false,
                CgroupEntry::File => true,
                CgroupEntry::Dir(c) => dir_found(c).error is None,
            },
    ensures
        dir_found(d).error == Some(reason),
        dir_found(d) == dir_found(other),
        dir_found(d).ids.contains(d.id->Ok_0),
        forall|j: int|
            0 <= j < i && (#[trigger] d.listing->Ok_0@[j]) is Dir ==> dir_found(
                d.listing->Ok_0@[j]->Dir_0,
            ).ids.subset_of(dir_found(d).ids),
{
    let a = d.listing->Ok_0@;
    let b = other.listing->Ok_0@;
    lemma_clean_prefix(a, i);
    assert(a.take(i + 1) =~= b.take(i + 1));
    assert(a.take(i + 1).drop_last() =~= a.take(i));
    lemma_entries_stop(a, i + 1);
    lemma_entries_stop(b, i + 1);
    assert forall|j: int| 0 <= j < i && (#[trigger] a[j]) is Dir implies dir_found(
        a[j]->Dir_0,
    ).ids.subset_of(dir_found(d).ids) by {
        assert(a.take(i)[j] == a[j]);
        lemma_entry_is_taken(a.take(i), a[j]);
    }
}

/// The same of the search by a pattern below a directory.
pub proof fn law_first_failure_ends_the_walk(
    d: CgroupDir,
    other: CgroupDir,
    pattern: Seq<char>,
    i: int,
    reason: Seq<char>,
)
    requires
        d.listing is Ok && other.listing is Ok,
        0 <= i < d.listing->Ok_0@.len(),
        i < other.listing->Ok_0@.len(),
        forall|j: int|
            0 <= j <= i ==> #[trigger] d.listing->Ok_0@[j] == other.listing->Ok_0@[j],
        match d.listing->Ok_0@[i] {
            CgroupEntry::Failed(e) => e@ == reason,
            CgroupEntry::File => false,
            CgroupEntry::Dir(c) => c.name is Some && if regex_is_match(pattern, c.name->0@) {
                dir_found(c).error == Some(reason)
            } else {
                walk_found(c, matched_by(pattern)).error == Some(reason)
            },
        },
        forall|j: int|
            0 <= j < i ==> match #[trigger] d.listing->Ok_0@[j] {
                CgroupEntry::Failed(_) => false,
                CgroupEntry::File => true,
                CgroupEntry::Dir(c) => c.name is None || if regex_is_match(pattern, c.name->0@) {
                    dir_found(c).error is None
                } else {
                    walk_found(c, matched_by(pattern)).error is None
                },
            },
    ensures
        walk_found(d, matched_by(pattern)).error == Some(reason),
        walk_found(d, matched_by(pattern)) == walk_found(other, matched_by(pattern)),
{
    let a = d.listing->Ok_0@;
    let b = other.listing->Ok_0@;
    let wanted = matched_by(pattern);
    lemma_walked_prefix(a, wanted, i);
    assert(a.take(i + 1) =~= b.take(i + 1));
    assert(a.take(i + 1).drop_last() =~= a.take(i));
    lemma_walk_stop(a, wanted, i + 1);
    lemma_walk_stop(b, wanted, i + 1);
}

proof fn lemma_clean_prefix(es: Seq<CgroupEntry>, n: int)
    requires
        0 <= n <= es.len(),
        forall|j: int|
            0 <= j < n ==> match #[trigger] es[j] {
                CgroupEntry::Failed(_) => false,
                CgroupEntry::File => true,
                CgroupEntry::Dir(c) => dir_found(c).error is None,
            },
    ensures
        entries_found(es.take(n)).error is None,
    decreases n,
{
    if n > 0 {
        lemma_clean_prefix(es, n - 1);
        assert(es.take(n).drop_last() =~= es.take(n - 1));
        assert(es.take(n).last() == es[n - 1]);
    }
}

proof fn lemma_walked_prefix(es: Seq<CgroupEntry>, wanted: spec_fn(Seq<char>) -> bool, n: int)
    requires
        0 <= n <= es.len(),
        forall|j: int|
            0 <= j < n ==> match #[trigger] es[j] {
                CgroupEntry::Failed(_) => false,
                CgroupEntry::File => true,
                CgroupEntry::Dir(c) => c.name is None || if wanted(c.name->0@) {
                    dir_found(c).error is None
                } else {
                    walk_found(c, wanted).error is None
                },
            },
    ensures
        walk_entries_found(es.take(n), wanted).error is None,
    decreases n,
{
    if n > 0 {
        lemma_walked_prefix(es, wanted, n - 1);
        assert(es.take(n).drop_last() =~= es.take(n - 1));
        assert(es.take(n).last() == es[n - 1]);
    }
}

/// A list of one pattern.
proof fn lemma_one_pattern(root: CgroupDir, pattern: Seq<char>)
    ensures
        resolved(root, seq![pattern]) == found_by(root, pattern),
{
    reveal_with_fuel(resolved, 2);
    let one = seq![pattern];
    assert(one.drop_last() =~= Seq::empty());
    if let Ok(more) = found_by(root, pattern) {
        assert(Set::<u64>::empty().union(more) =~= more);
    }
}

/// What a search of a listing that is not stopped has done with each item.
proof fn lemma_entry_is_taken(es: Seq<CgroupEntry>, e: CgroupEntry)
    requires
        entries_found(es).error is None,
        es.contains(e),
    ensures
        !(e is Failed),
        e is Dir ==> dir_found(e->Dir_0).error is None && dir_found(e->Dir_0).ids.subset_of(
            entries_found(es).ids,
        ),
    decreases es.len(),
{
    let i = choose|i: int| 0 <= i < es.len() && es[i] == e;
    if i < es.len() - 1 {
        assert(es.drop_last()[i] == e);
        lemma_entry_is_taken(es.drop_last(), e);
    }
}

/// What a search by name of a listing that is not stopped has done with each item.
proof fn lemma_entry_is_walked(
    es: Seq<CgroupEntry>,
    wanted: spec_fn(Seq<char>) -> bool,
    e: CgroupEntry,
)
    requires
        walk_entries_found(es, wanted).error is None,
        es.contains(e),
    ensures
        !(e is Failed),
        e is Dir && e->Dir_0.name is Some ==> if wanted(e->Dir_0.name->0@) {
            &&& dir_found(e->Dir_0).error is None
            &&& dir_found(e->Dir_0).ids.subset_of(walk_entries_found(es, wanted).ids)
        } else {
            &&& walk_found(e->Dir_0, wanted).error is None
            &&& walk_found(e->Dir_0, wanted).ids.subset_of(walk_entries_found(es, wanted).ids)
        },
    decreases es.len(),
{
    let i = choose|i: int| 0 <= i < es.len() && es[i] == e;
    if i < es.len() - 1 {
        assert(es.drop_last()[i] == e);
        lemma_entry_is_walked(es.drop_last(), wanted, e);
    }
}

/// A directory that was searched could be read.
proof fn lemma_taken_is_readable(d: CgroupDir, reason: Seq<char>)
    requires
        dir_found(d).error is None,
    ensures
        d.id is Ok,
        dir_found(d).ids.contains(d.id->Ok_0),
        !is_unreadable(d, reason),
{
    if d.is_dir && is_unlisted(d, reason) {
        if let Ok(v) = d.listing {
            let e = choose|e: String| #[trigger]
                v@.contains(CgroupEntry::Failed(e)) && e@ == reason;
            lemma_entry_is_taken(v@, CgroupEntry::Failed(e));
        }
    }
}

/// A directory that was searched by name could be listed.
proof fn lemma_walked_is_listed(
    d: CgroupDir,
    wanted: spec_fn(Seq<char>) -> bool,
    reason: Seq<char>,
)
    requires
        walk_found(d, wanted).error is None,
    ensures
        !is_unlisted(d, reason),
{
    if is_unlisted(d, reason) {
        if let Ok(v) = d.listing {
            let e = choose|e: String| #[trigger]
                v@.contains(CgroupEntry::Failed(e)) && e@ == reason;
            lemma_entry_is_walked(v@, wanted, CgroupEntry::Failed(e));
        }
    }
}

/// A search takes what any way down leads to.
proof fn lemma_way_is_taken(d: CgroupDir, below: Seq<CgroupDir>)
    requires
        dir_found(d).error is None,
        is_way_down(below, d),
    ensures
        below.last().id is Ok,
        dir_found(d).ids.contains(below.last().id->Ok_0),
        forall|e: Seq<char>| !#[trigger] is_unreadable(below.last(), e),
    decreases below.len(),
{
    if below.len() == 1 {
        assert forall|e: Seq<char>| !#[trigger] is_unreadable(below.last(), e) by {
            lemma_taken_is_readable(d, e);
        }
        lemma_taken_is_readable(d, Seq::empty());
    } else {
        let rest = below.drop_first();
        assert(is_step(below, 0));
        let c = below[1];
        lemma_entry_is_taken(d.listing->Ok_0@, CgroupEntry::Dir(c));
        assert forall|i: int| 0 <= i < rest.len() - 1 implies #[trigger] is_step(rest, i)
            && rest[i].is_dir by {
            assert(is_step(below, i + 1));
        }
        lemma_way_is_taken(c, rest);
        assert(rest.last() == below.last());
    }
}

/// A search by name gets to what a way down leads to past names that are not wanted.
proof fn lemma_way_is_walked(
    d: CgroupDir,
    pattern: Seq<char>,
    wanted: spec_fn(Seq<char>) -> bool,
    way: Seq<CgroupDir>,
)
    requires
        wanted == (|n: Seq<char>| regex_is_match(pattern, n)),
        walk_found(d, wanted).error is None,
        is_way_past(way, d, pattern),
    ensures
        way.len() == 1 || (way.last().name is Some && !is_named_by(way.last(), pattern))
            ==> walk_found(way.last(), wanted).error is None,
        way.len() > 1 && is_named_by(way.last(), pattern) ==> {
            &&& dir_found(way.last()).error is None
            &&& dir_found(way.last()).ids.subset_of(walk_found(d, wanted).ids)
        },
    decreases way.len(),
{
    if way.len() > 1 {
        assert(is_step(way, 0));
        let c = way[1];
        lemma_entry_is_walked(d.listing->Ok_0@, wanted, CgroupEntry::Dir(c));
        if way.len() > 2 {
            let rest = way.drop_first();
            assert(way[1].name is Some);
            assert forall|i: int| 0 <= i < rest.len() - 1 implies #[trigger] is_step(rest, i) by {
                assert(is_step(way, i + 1));
            }
            assert forall|i: int| 0 < i < rest.len() - 1 implies (#[trigger] rest[i]).name is Some
                && !regex_is_match(pattern, rest[i].name->0@) by {
                assert(rest[i] == way[i + 1]);
            }
            lemma_way_is_walked(c, pattern, wanted, rest);
            assert(rest.last() == way.last());
        }
    }
}

/// One more directory in front of a way down.
proof fn lemma_longer_way_down(d: CgroupDir, c: CgroupDir, way: Seq<CgroupDir>)
    requires
        is_child(c, d),
        d.is_dir,
        is_way_down(way, c),
    ensures
        is_way_down(seq![d] + way, d),
        (seq![d] + way).last() == way.last(),
{
    let long = seq![d] + way;
    assert forall|i: int| 0 <= i < long.len() - 1 implies #[trigger] is_step(long, i)
        && long[i].is_dir by {
        if i > 0 {
            assert(is_step(way, i - 1));
            assert(long[i + 1] == way[i]);
            assert(long[i] == way[i - 1]);
        }
    }
}

/// One more directory in front of a way past names that are not wanted.
proof fn lemma_longer_way_past(
    d: CgroupDir,
    c: CgroupDir,
    pattern: Seq<char>,
    way: Seq<CgroupDir>,
)
    requires
        is_child(c, d),
        is_way_past(way, c, pattern),
        way.len() > 1 ==> c.name is Some && !is_named_by(c, pattern),
    ensures
        is_way_past(seq![d] + way, d, pattern),
        (seq![d] + way).last() == way.last(),
{
    let long = seq![d] + way;
    assert forall|i: int| 0 <= i < long.len() - 1 implies #[trigger] is_step(long, i) by {
        if i > 0 {
            assert(is_step(way, i - 1));
            assert(long[i + 1] == way[i]);
            assert(long[i] == way[i - 1]);
        }
    }
    assert forall|i: int| 0 < i < long.len() - 1 implies (#[trigger] long[i]).name is Some
        && !regex_is_match(pattern, long[i].name->0@) by {
        assert(long[i] == way[i - 1]);
    }
}

/// Some way down leads to what a search takes.
proof fn lemma_taken_has_way(d: CgroupDir, id: u64)
    requires
        dir_found(d).ids.contains(id),
    ensures
        exists|way: Seq<CgroupDir>| #[trigger]
            is_way_down(way, d) && way.last().id == Ok::<u64, String>(id),
    decreases d,
{
    if d.id == Ok::<u64, String>(id) {
        let way = seq![d];
        assert(is_way_down(way, d) && way.last() == d);
    } else {
        let v = d.listing->Ok_0;
        let c = lemma_taken_entry_has_way(v@, id);
        let way = choose|way: Seq<CgroupDir>| #[trigger]
            is_way_down(way, c) && way.last().id == Ok::<u64, String>(id);
        lemma_longer_way_down(d, c, way);
    }
}

proof fn lemma_taken_entry_has_way(es: Seq<CgroupEntry>, id: u64) -> (c: CgroupDir)
    requires
        entries_found(es).ids.contains(id),
    ensures
        es.contains(CgroupEntry::Dir(c)),
        exists|way: Seq<CgroupDir>| #[trigger]
            is_way_down(way, c) && way.last().id == Ok::<u64, String>(id),
    decreases es,
{
    let init = es.drop_last();
    if entries_found(init).ids.contains(id) {
        let c = lemma_taken_entry_has_way(init, id);
        let i = choose|i: int| 0 <= i < init.len() && init[i] == CgroupEntry::Dir(c);
        assert(es[i] == CgroupEntry::Dir(c));
        c
    } else {
        let c = es.last()->Dir_0;
        assert(es[es.len() - 1] == CgroupEntry::Dir(c));
        lemma_taken_has_way(c, id);
        c
    }
}

/// Some way down leads to what stopped a search.
proof fn lemma_search_fails_somewhere(d: CgroupDir, reason: Seq<char>)
    requires
        dir_found(d).error == Some(reason),
    ensures
        exists|way: Seq<CgroupDir>| #[trigger]
            is_way_down(way, d) && is_unreadable(way.last(), reason),
    decreases d,
{
    let here = seq![d];
    assert(is_way_down(here, d) && here.last() == d);
    if d.id is Ok {
        if let Ok(v) = d.listing {
            let at = lemma_entries_fail_somewhere(v@, reason);
            match v@[at] {
                CgroupEntry::Failed(e) => {
                    assert(v@.contains(CgroupEntry::Failed(e)) && e@ == reason);
                    assert(is_unreadable(here.last(), reason));
                },
                CgroupEntry::Dir(c) => {
                    let way = choose|way: Seq<CgroupDir>| #[trigger]
                        is_way_down(way, c) && is_unreadable(way.last(), reason);
                    assert(v@.contains(CgroupEntry::Dir(c)));
                    lemma_longer_way_down(d, c, way);
                },
                CgroupEntry::File => {},
            }
        }
    }
}

proof fn lemma_entries_fail_somewhere(es: Seq<CgroupEntry>, reason: Seq<char>) -> (at: int)
    requires
        entries_found(es).error == Some(reason),
    ensures
        0 <= at < es.len(),
        match es[at] {
            CgroupEntry::Failed(e) => e@ == reason,
            CgroupEntry::File => false,
            CgroupEntry::Dir(c) => exists|way: Seq<CgroupDir>| #[trigger]
                is_way_down(way, c) && is_unreadable(way.last(), reason),
        },
    decreases es,
{
    let init = es.drop_last();
    if entries_found(init).error is Some {
        let at = lemma_entries_fail_somewhere(init, reason);
        assert(es[at] == init[at]);
        at
    } else {
        if let CgroupEntry::Dir(c) = es.last() {
            lemma_search_fails_somewhere(c, reason);
        }
        es.len() - 1
    }
}

/// Some way leads past names that are not wanted to what a search by name takes.
proof fn lemma_walked_has_way(
    d: CgroupDir,
    pattern: Seq<char>,
    wanted: spec_fn(Seq<char>) -> bool,
    id: u64,
)
    requires
        wanted == (|n: Seq<char>| regex_is_match(pattern, n)),
        walk_found(d, wanted).ids.contains(id),
    ensures
        exists|way: Seq<CgroupDir>, below: Seq<CgroupDir>|
            {
                &&& #[trigger] is_way_past(way, d, pattern)
                &&& way.len() > 1
                &&& is_named_by(way.last(), pattern)
                &&& #[trigger] is_way_down(below, way.last())
                &&& below.last().id == Ok::<u64, String>(id)
            },
    decreases d,
{
    let v = d.listing->Ok_0;
    let (c, way, below) = lemma_walked_entry_has_way(v@, pattern, wanted, id);
    lemma_longer_way_past(d, c, pattern, way);
    let long = seq![d] + way;
    assert(is_way_past(long, d, pattern) && is_way_down(below, long.last()));
}

proof fn lemma_walked_entry_has_way(
    es: Seq<CgroupEntry>,
    pattern: Seq<char>,
    wanted: spec_fn(Seq<char>) -> bool,
    id: u64,
) -> (r: (CgroupDir, Seq<CgroupDir>, Seq<CgroupDir>))
    requires
        wanted == (|n: Seq<char>| regex_is_match(pattern, n)),
        walk_entries_found(es, wanted).ids.contains(id),
    ensures
        es.contains(CgroupEntry::Dir(r.0)),
        is_way_past(r.1, r.0, pattern),
        r.1.len() > 1 ==> r.0.name is Some && !is_named_by(r.0, pattern),
        is_named_by(r.1.last(), pattern),
        is_way_down(r.2, r.1.last()),
        r.2.last().id == Ok::<u64, String>(id),
    decreases es,
{
    let init = es.drop_last();
    if walk_entries_found(init, wanted).ids.contains(id) {
        let r = lemma_walked_entry_has_way(init, pattern, wanted, id);
        let i = choose|i: int| 0 <= i < init.len() && init[i] == CgroupEntry::Dir(r.0);
        assert(es[i] == CgroupEntry::Dir(r.0));
        r
    } else {
        let c = es.last()->Dir_0;
        assert(es[es.len() - 1] == CgroupEntry::Dir(c));
        if is_named_by(c, pattern) {
            lemma_taken_has_way(c, id);
            let below = choose|way: Seq<CgroupDir>| #[trigger]
                is_way_down(way, c) && way.last().id == Ok::<u64, String>(id);
            (c, seq![c], below)
        } else {
            lemma_walked_has_way(c, pattern, wanted, id);
            let (way, below) = choose|way: Seq<CgroupDir>, below: Seq<CgroupDir>|
                {
                    &&& #[trigger] is_way_past(way, c, pattern)
                    &&& way.len() > 1
                    &&& is_named_by(way.last(), pattern)
                    &&& #[trigger] is_way_down(below, way.last())
                    &&& below.last().id == Ok::<u64, String>(id)
                };
            (c, way, below)
        }
    }
}

/// Where a search by name was stopped: in a directory that it took, or at the listing of one
/// that it searched.
spec fn walk_failure(
    root: CgroupDir,
    pattern: Seq<char>,
    reason: Seq<char>,
    way: Seq<CgroupDir>,
    below: Seq<CgroupDir>,
) -> bool {
    &&& is_way_past(way, root, pattern)
    &&& is_way_down(below, way.last())
    &&& if way.len() > 1 && is_named_by(way.last(), pattern) {
        is_unreadable(below.last(), reason)
    } else {
        (way.len() == 1 || way.last().name is Some) && is_unlisted(way.last(), reason)
    }
}

/// Some way leads past names that are not wanted to what stopped a search by name.
proof fn lemma_walk_fails_somewhere(
    d: CgroupDir,
    pattern: Seq<char>,
    wanted: spec_fn(Seq<char>) -> bool,
    reason: Seq<char>,
)
    requires
        wanted == (|n: Seq<char>| regex_is_match(pattern, n)),
        walk_found(d, wanted).error == Some(reason),
    ensures
        exists|way: Seq<CgroupDir>, below: Seq<CgroupDir>|
            walk_failure(d, pattern, reason, way, below),
    decreases d,
{
    let here = seq![d];
    assert(is_way_past(here, d, pattern) && is_way_down(here, d) && here.last() == d);
    match d.listing {
        Err(_) => {
            assert(walk_failure(d, pattern, reason, here, here));
        },
        Ok(v) => {
            let at = lemma_walk_entries_fail_somewhere(v@, pattern, wanted, reason);
            match v@[at] {
                CgroupEntry::Failed(e) => {
                    assert(v@.contains(CgroupEntry::Failed(e)) && e@ == reason);
                    assert(walk_failure(d, pattern, reason, here, here));
                },
                CgroupEntry::Dir(c) => {
                    assert(v@.contains(CgroupEntry::Dir(c)));
                    if is_named_by(c, pattern) {
                        let below = choose|way: Seq<CgroupDir>| #[trigger]
                            is_way_down(way, c) && is_unreadable(way.last(), reason);
                        lemma_longer_way_past(d, c, pattern, seq![c]);
                        let long = seq![d] + seq![c];
                        assert(walk_failure(d, pattern, reason, long, below));
                    } else {
                        let (way, below) = choose|way: Seq<CgroupDir>, below: Seq<CgroupDir>|
                            walk_failure(c, pattern, reason, way, below);
                        lemma_longer_way_past(d, c, pattern, way);
                        let long = seq![d] + way;
                        assert(walk_failure(d, pattern, reason, long, below));
                    }
                },
                CgroupEntry::File => {},
            }
        },
    }
}

proof fn lemma_walk_entries_fail_somewhere(
    es: Seq<CgroupEntry>,
    pattern: Seq<char>,
    wanted: spec_fn(Seq<char>) -> bool,
    reason: Seq<char>,
) -> (at: int)
    requires
        wanted == (|n: Seq<char>| regex_is_match(pattern, n)),
        walk_entries_found(es, wanted).error == Some(reason),
    ensures
        0 <= at < es.len(),
        match es[at] {
            CgroupEntry::Failed(e) => e@ == reason,
            CgroupEntry::File => false,
            CgroupEntry::Dir(c) => c.name is Some && if is_named_by(c, pattern) {
                exists|way: Seq<CgroupDir>| #[trigger]
                    is_way_down(way, c) && is_unreadable(way.last(), reason)
            } else {
                exists|way: Seq<CgroupDir>, below: Seq<CgroupDir>|
                    walk_failure(c, pattern, reason, way, below)
            },
        },
    decreases es,
{
    let init = es.drop_last();
    if walk_entries_found(init, wanted).error is Some {
        let at = lemma_walk_entries_fail_somewhere(init, pattern, wanted, reason);
        assert(es[at] == init[at]);
        at
    } else {
        if let CgroupEntry::Dir(c) = es.last() {
            if is_named_by(c, pattern) {
                lemma_search_fails_somewhere(c, reason);
            } else if c.name is Some {
                lemma_walk_fails_somewhere(c, pattern, wanted, reason);
            }
        }
        es.len() - 1
    }
}

/// Given names are wanted exactly where they stand in the list, and what an error says of
/// itself is what it holds.
pub proof fn law_wanted_names(names: Seq<String>, name: Seq<char>, error: CgroupError)
    ensures
        listed(names)(name) <==> exists|i: int| 0 <= i < names.len() && #[trigger] names[i]@ == name,
        match error {
            CgroupError::Pattern(e) => error@ == CgroupErrorText::Pattern(e@),
            CgroupError::Read(e) => error@ == CgroupErrorText::Read(e@),
        },
{
    if listed(names)(name) {
        let i = choose|i: int| 0 <= i < texts(names).len() && texts(names)[i] == name;
        assert(names[i]@ == name);
    }
    if exists|i: int| 0 <= i < names.len() && #[trigger] names[i]@ == name {
        let i = choose|i: int| 0 <= i < names.len() && #[trigger] names[i]@ == name;
        assert(texts(names)[i] == name);
    }
}

/// What one pattern asks for, with given names: the id of the root for the word `root`, and
/// else, where the pattern does not match that word, nothing but what a directory with a
/// given name brings.
pub proof fn law_given_names_are_searched(
    root: CgroupDir,
    pattern: Seq<char>,
    matches_root: bool,
    names: Seq<String>,
    other: spec_fn(Seq<char>) -> bool,
)
    requires
        forall|n: Seq<char>|
            #![trigger other(n)]
            other(n) <==> exists|i: int| 0 <= i < names.len() && #[trigger] names[i]@ == n,
    ensures
        pattern == "root"@ && root.id is Ok ==> pattern_found(
            root,
            pattern,
            matches_root,
            listed(names),
        ) == (Found { ids: set![root.id->Ok_0], error: None }),
        pattern == "root"@ && root.id is Err ==> pattern_found(
            root,
            pattern,
            matches_root,
            listed(names),
        ) == (Found { ids: Set::empty(), error: Some(root.id->Err_0@) }),
        pattern != "root"@ ==> pattern_found(root, pattern, true, listed(names)) == dir_found(root),
        pattern != "root"@ ==> pattern_found(root, pattern, false, listed(names)) == walk_found(
            root,
            other,
        ),
{
    assert forall|n: Seq<char>| #[trigger] names_below(root).contains(n) implies listed(names)(n)
        == other(n) by {
        law_wanted_names(names, n, CgroupError::Read(arbitrary()));
    }
    lemma_walk_agrees(root, listed(names), other);
}

} // verus!
