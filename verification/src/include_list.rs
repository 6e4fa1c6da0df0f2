//! The include list: a per-folder rule tree describing which files and
//! extensions are exported.

use vstd::prelude::*;

verus! {

/// One rule entry: a nested folder's own rules, a wildcard extension rule, or
/// a literal filename.
#[derive(Debug)]
pub enum AllowType {
    Folder(Box<IncludeList>),
    Type(String),
    File(String),
}

/// A rule tree keyed by path segment.
#[derive(Debug)]
pub struct IncludeList {
    contents: Vec<(String, AllowType)>,
}

/// The mathematical model of a rule entry.
pub enum EntryModel {
    Folder(Seq<(Seq<char>, EntryModel)>),
    Type(Seq<char>),
    File(Seq<char>),
}

impl AllowType {
    /// The model of this entry.
    pub closed spec fn model(self) -> EntryModel
        decreases self,
        via Self::model_decreases
    {
        match self {
            AllowType::Folder(f) => EntryModel::Folder(list_model(f.contents@)),
            AllowType::Type(s) => EntryModel::Type(s@),
            AllowType::File(s) => EntryModel::File(s@),
        }
    }

    #[via_fn]
    proof fn model_decreases(self) {
        match self {
            AllowType::Folder(f) => {
                vstd::std_specs::vec::axiom_vec_decreases_to_view(f.contents);
            },
            _ => {},
        }
    }
}

/// The model of an entry list, in insertion order.
pub closed spec fn list_model(s: Seq<(String, AllowType)>) -> Seq<(Seq<char>, EntryModel)>
    decreases s,
    via list_model_decreases
{
    if s.len() == 0 {
        Seq::empty()
    } else {
        list_model(s.drop_last()).push((s.last().0@, s.last().1.model()))
    }
}

#[via_fn]
proof fn list_model_decreases(s: Seq<(String, AllowType)>) {
    if s.len() > 0 {
        assert forall|i2: int|
            0 <= i2 < s.drop_last().len() && #[trigger] vstd::pervasive::trigger(s.drop_last()[i2])
            implies exists|i1: int| 0 <= i1 < s.len() && s[i1] == s.drop_last()[i2] by {
            assert(s[i2] == s.drop_last()[i2]);
        }
        vstd::seq::axiom_seq_len_decreases(s, s.drop_last());
        vstd::seq::axiom_seq_index_decreases(s, s.len() - 1);
    }
}

proof fn lemma_list_model_len(s: Seq<(String, AllowType)>)
    ensures
        list_model(s).len() == s.len(),
    decreases s.len(),
{
    if s.len() > 0 {
        lemma_list_model_len(s.drop_last());
    }
}

proof fn lemma_list_model_index(s: Seq<(String, AllowType)>, i: int)
    requires
        0 <= i < s.len(),
    ensures
        list_model(s).len() == s.len(),
        list_model(s)[i] == (s[i].0@, s[i].1.model()),
    decreases s.len(),
{
    lemma_list_model_len(s);
    if i < s.len() - 1 {
        lemma_list_model_index(s.drop_last(), i);
    } else {
        lemma_list_model_len(s.drop_last());
    }
}

proof fn lemma_list_model_push(s: Seq<(String, AllowType)>, x: (String, AllowType))
    ensures
        list_model(s.push(x)) == list_model(s).push((x.0@, x.1.model())),
{
    assert(s.push(x).drop_last() =~= s);
    assert(s.push(x).last() == x);
}

proof fn lemma_list_model_update(s: Seq<(String, AllowType)>, i: int, x: (String, AllowType))
    requires
        0 <= i < s.len(),
    ensures
        list_model(s.update(i, x)) == list_model(s).update(i, (x.0@, x.1.model())),
    decreases s.len(),
{
    lemma_list_model_len(s);
    let su = s.update(i, x);
    if i == s.len() - 1 {
        assert(su.drop_last() =~= s.drop_last());
        assert(su.last() == x);
        assert(list_model(s).update(i, (x.0@, x.1.model()))
            =~= list_model(s.drop_last()).push((x.0@, x.1.model())));
    } else {
        assert(su.drop_last() =~= s.drop_last().update(i, x));
        assert(su.last() == s.last());
        lemma_list_model_update(s.drop_last(), i, x);
        lemma_list_model_len(s.drop_last());
        assert(list_model(s).update(i, (x.0@, x.1.model()))
            =~= list_model(s.drop_last()).update(i, (x.0@, x.1.model())).push(
            (s.last().0@, s.last().1.model())));
    }
}

/// The key a leaf entry is stored under: its own text.
pub open spec fn model_key(e: EntryModel) -> Seq<char> {
    match e {
        EntryModel::Folder(_) => Seq::empty(),
        EntryModel::Type(s) => s,
        EntryModel::File(s) => s,
    }
}

/// The position of the last entry stored under key `k`, or `-1`.
pub open spec fn find_index(s: Seq<(Seq<char>, EntryModel)>, k: Seq<char>) -> int
    decreases s.len(),
{
    if s.len() == 0 {
        -1
    } else if s.last().0 == k {
        s.len() - 1
    } else {
        find_index(s.drop_last(), k)
    }
}

pub proof fn lemma_find_index(s: Seq<(Seq<char>, EntryModel)>, k: Seq<char>)
    ensures
        -1 <= find_index(s, k) < s.len(),
        find_index(s, k) >= 0 ==> s[find_index(s, k)].0 == k,
        find_index(s, k) == -1 ==> forall|j: int| 0 <= j < s.len() ==> (#[trigger] s[j]).0 != k,
    decreases s.len(),
{
    if s.len() > 0 && s.last().0 != k {
        lemma_find_index(s.drop_last(), k);
        assert(forall|j: int| 0 <= j < s.len() - 1 ==> s.drop_last()[j] == #[trigger] s[j]);
    }
}

/// The entry stored under key `k`, if any: the latest insertion wins.
pub open spec fn model_find(s: Seq<(Seq<char>, EntryModel)>, k: Seq<char>) -> Option<EntryModel> {
    let i = find_index(s, k);
    if i < 0 {
        None
    } else {
        Some(s[i].1)
    }
}

/// Inserting a leaf entry under the folder path `path[pi..]`: missing folders
/// are created, an existing folder under a path segment is merged into, and a
/// leaf stored under an already-used key shadows the older entry.
pub open spec fn model_insert(
    s: Seq<(Seq<char>, EntryModel)>,
    path: Seq<Seq<char>>,
    pi: int,
    e: EntryModel,
) -> Seq<(Seq<char>, EntryModel)>
    decreases path.len() - pi,
{
    if pi < 0 || pi >= path.len() {
        s.push((model_key(e), e))
    } else {
        let k = path[pi];
        let i = find_index(s, k);
        if i >= 0 && s[i].1 is Folder {
            s.update(i, (k, EntryModel::Folder(model_insert(s[i].1->Folder_0, path, pi + 1, e))))
        } else {
            s.push((k, EntryModel::Folder(model_insert(Seq::empty(), path, pi + 1, e))))
        }
    }
}

/// The state of the line-oriented rule parser.
pub struct BuildState {
    pub tree: Seq<(Seq<char>, EntryModel)>,
    pub path: Seq<Seq<char>>,
    pub entry: Seq<char>,
    pub is_wildcard: bool,
    pub wildcard_valid: bool,
    pub failed: bool,
}

pub open spec fn build_init(tree: Seq<(Seq<char>, EntryModel)>) -> BuildState {
    BuildState {
        tree: tree,
        path: Seq::empty(),
        entry: Seq::empty(),
        is_wildcard: false,
        wildcard_valid: false,
        failed: false,
    }
}

/// Commits the pending line as a leaf entry and resets the line state.
pub open spec fn build_commit(st: BuildState, e: EntryModel) -> BuildState {
    BuildState {
        tree: model_insert(st.tree, st.path, 0, e),
        path: Seq::empty(),
        entry: Seq::empty(),
        is_wildcard: false,
        wildcard_valid: false,
        failed: false,
    }
}

/// One step of the rule parser over one character.
pub open spec fn build_step(st: BuildState, c: char) -> BuildState {
    if st.failed {
        st
    } else if c == '/' || c == '\\' {
        if st.is_wildcard {
            BuildState { failed: true, ..st }
        } else {
            BuildState { path: st.path.push(st.entry), entry: Seq::empty(), ..st }
        }
    } else if c == '\n' {
        if st.entry.len() > 0 {
            if st.is_wildcard {
                if st.wildcard_valid {
                    build_commit(st, EntryModel::Type(st.entry))
                } else {
                    BuildState { failed: true, ..st }
                }
            } else {
                build_commit(st, EntryModel::File(st.entry))
            }
        } else {
            st
        }
    } else if c == '\r' {
        st
    } else if c == '*' {
        if st.entry.len() > 0 || st.is_wildcard {
            BuildState { failed: true, ..st }
        } else {
            BuildState { is_wildcard: true, ..st }
        }
    } else if c == '.' {
        if st.entry.len() > 0 && st.is_wildcard {
            BuildState { failed: true, ..st }
        } else {
            BuildState {
                wildcard_valid: st.is_wildcard,
                entry: st.entry.push('.'),
                ..st
            }
        }
    } else {
        BuildState { entry: st.entry.push(c), ..st }
    }
}

/// The parser's state after all characters of a rule text.
pub open spec fn build_fold(s: Seq<char>, init: BuildState) -> BuildState
    decreases s.len(),
{
    if s.len() == 0 {
        init
    } else {
        build_step(build_fold(s.drop_last(), init), s.last())
    }
}

proof fn lemma_build_failed_sticky(s: Seq<char>, init: BuildState, i: int)
    requires
        0 <= i <= s.len(),
        build_fold(s.subrange(0, i), init).failed,
    ensures
        build_fold(s, init) == build_fold(s.subrange(0, i), init),
    decreases s.len() - i,
{
    if i == s.len() {
        assert(s.subrange(0, i) =~= s);
    } else {
        assert(s.subrange(0, i + 1).drop_last() =~= s.subrange(0, i));
        assert(s.subrange(0, i + 1).last() == s[i]);
        lemma_build_failed_sticky(s, init, i + 1);
    }
}

/// Completes a parse at end of input: a pending nonempty final line is
/// validated and committed like any other line, whether or not a newline
/// ends it.
pub open spec fn build_finish(st: BuildState) -> BuildState {
    if st.failed {
        st
    } else if st.entry.len() > 0 {
        if st.is_wildcard {
            if st.wildcard_valid {
                build_commit(st, EntryModel::Type(st.entry))
            } else {
                BuildState { failed: true, ..st }
            }
        } else {
            build_commit(st, EntryModel::File(st.entry))
        }
    } else {
        st
    }
}

/// What a rule text builds over a starting tree.
pub open spec fn build_result(s: Seq<char>, tree: Seq<(Seq<char>, EntryModel)>) -> BuildState {
    build_finish(build_fold(s, build_init(tree)))
}

/// Whether a rule text is malformed, and everything else the parser tracks
/// apart from the tree it builds, is the same over any starting tree.
proof fn lemma_build_tree_independent(
    s: Seq<char>,
    t1: Seq<(Seq<char>, EntryModel)>,
    t2: Seq<(Seq<char>, EntryModel)>,
)
    ensures
        ({
            let a = build_fold(s, build_init(t1));
            let b = build_fold(s, build_init(t2));
            &&& a.failed == b.failed
            &&& a.path == b.path
            &&& a.entry == b.entry
            &&& a.is_wildcard == b.is_wildcard
            &&& a.wildcard_valid == b.wildcard_valid
        }),
    decreases s.len(),
{
    if s.len() > 0 {
        lemma_build_tree_independent(s.drop_last(), t1, t2);
    }
}

/// Scans a rule text for malformedness without building anything, and
/// reports the first failure's message.
fn find_rule_error(v: &Vec<char>) -> (r: Option<String>)
    ensures
        r is Some <==> build_result(v@, Seq::<(Seq<char>, EntryModel)>::empty()).failed,
{
    let ghost cs = v@;
    let ghost init = build_init(Seq::<(Seq<char>, EntryModel)>::empty());
    let n = v.len();
    let mut entry_nonempty = false;
    let mut is_wildcard = false;
    let mut wildcard_valid = false;

    let mut i: usize = 0;
    while i < n
        invariant
            i <= n,
            n == cs.len(),
            cs == v@,
            ({
                let st = build_fold(cs.subrange(0, i as int), init);
                &&& !st.failed
                &&& (st.entry.len() > 0) == entry_nonempty
                &&& st.is_wildcard == is_wildcard
                &&& st.wildcard_valid == wildcard_valid
            }),
        decreases n - i,
    {
        proof {
            assert(cs.subrange(0, i + 1 as int).drop_last() =~= cs.subrange(0, i as int));
            assert(cs.subrange(0, i + 1 as int).last() == cs[i as int]);
        }
        let c = v[i];
        if c == '/' || c == '\\' {
            if is_wildcard {
                proof {
                    lemma_build_failed_sticky(cs, init, i + 1);
                }
                return Some("Encountered '*' in folder name".to_owned());
            }
            entry_nonempty = false;
        } else if c == '\n' {
            if entry_nonempty {
                if is_wildcard && !wildcard_valid {
                    proof {
                        lemma_build_failed_sticky(cs, init, i + 1);
                    }
                    return Some("Encountered improper use of '*'".to_owned());
                }
                entry_nonempty = false;
                is_wildcard = false;
                wildcard_valid = false;
            }
        } else if c == '\r' {
            // carriage returns are omitted
        } else if c == '*' {
            if entry_nonempty || is_wildcard {
                proof {
                    lemma_build_failed_sticky(cs, init, i + 1);
                }
                return Some("Encountered improper use of '*'".to_owned());
            }
            is_wildcard = true;
        } else if c == '.' {
            if entry_nonempty && is_wildcard {
                proof {
                    lemma_build_failed_sticky(cs, init, i + 1);
                }
                return Some("Encountered improper use of '*'".to_owned());
            }
            wildcard_valid = is_wildcard;
            entry_nonempty = true;
        } else {
            entry_nonempty = true;
        }
        i = i + 1;
    }
    proof {
        assert(cs.subrange(0, n as int) =~= cs);
    }
    if entry_nonempty && is_wildcard && !wildcard_valid {
        return Some("Encountered improper use of '*'".to_owned());
    }
    None
}

impl AllowType {
    /// The text of a leaf entry. Folders carry no text, so they are ruled
    /// out up front.
    pub fn unsafe_to_str(&self) -> (r: &str)
        requires
            !(self is Folder),
        ensures
            r@ == model_key(self.model()),
    {
        match self {
            AllowType::Folder(_) => "",
            AllowType::Type(s) => s.as_str(),
            AllowType::File(s) => s.as_str(),
        }
    }
}

/// The latest entry stored under key `k`, as a value.
pub closed spec fn contents_find(s: Seq<(String, AllowType)>, k: Seq<char>) -> Option<AllowType>
    decreases s.len(),
{
    if s.len() == 0 {
        None
    } else if s.last().0@ == k {
        Some(s.last().1)
    } else {
        contents_find(s.drop_last(), k)
    }
}

proof fn lemma_contents_find(s: Seq<(String, AllowType)>, k: Seq<char>)
    ensures
        ({
            let fi = find_index(list_model(s), k);
            &&& list_model(s).len() == s.len()
            &&& (fi >= 0 ==> 0 <= fi < s.len() && contents_find(s, k) == Some(s[fi].1))
            &&& (fi < 0 ==> contents_find(s, k) is None)
        }),
    decreases s.len(),
{
    lemma_list_model_len(s);
    lemma_find_index(list_model(s), k);
    if s.len() > 0 {
        lemma_contents_find(s.drop_last(), k);
        lemma_list_model_len(s.drop_last());
        assert(list_model(s).drop_last() =~= list_model(s.drop_last()));
        assert(list_model(s).last() == (s.last().0@, s.last().1.model()));
        lemma_find_index(list_model(s.drop_last()), k);
    }
}

impl IncludeList {
    /// The model of this rule tree.
    pub closed spec fn model(self) -> Seq<(Seq<char>, EntryModel)> {
        list_model(self.contents@)
    }

    /// The subtree stored under `k`, as a value.
    pub closed spec fn spec_get_folder(self, k: Seq<char>) -> Option<IncludeList> {
        match contents_find(self.contents@, k) {
            Some(AllowType::Folder(f)) => Some(*f),
            _ => None,
        }
    }

    /// The two folder-lookup views agree: `spec_get_folder` returns the
    /// subtree whose model `model_find` describes.
    pub proof fn lemma_get_folder_model(self, k: Seq<char>)
        ensures
            match self.spec_get_folder(k) {
                Some(sub) => model_find(self.model(), k) == Some(EntryModel::Folder(sub.model())),
                None => !(model_find(self.model(), k) matches Some(EntryModel::Folder(_))),
            },
    {
        lemma_contents_find(self.contents@, k);
        let fi = find_index(list_model(self.contents@), k);
        if fi >= 0 {
            lemma_list_model_index(self.contents@, fi);
        }
    }

    pub fn new() -> (r: IncludeList)
        ensures
            r.model() == Seq::<(Seq<char>, EntryModel)>::empty(),
    {
        IncludeList { contents: Vec::new() }
    }

    /// The position of the latest entry stored under `name`, if any.
    fn find_last(&self, name: &str) -> (r: Option<usize>)
        ensures
            match r {
                Some(i) => i < self.contents@.len() && find_index(self.model(), name@) == i as int,
                None => find_index(self.model(), name@) == -1,
            },
    {
        let n = self.contents.len();
        proof {
            lemma_list_model_len(self.contents@);
            assert(self.contents@.subrange(0, n as int) =~= self.contents@);
        }
        let mut j: usize = n;
        while j > 0
            invariant
                j <= n,
                n == self.contents@.len(),
                find_index(self.model(), name@)
                    == find_index(list_model(self.contents@.subrange(0, j as int)), name@),
            decreases j,
        {
            j = j - 1;
            let ghost pre = self.contents@.subrange(0, j as int);
            proof {
                assert(self.contents@.subrange(0, j + 1 as int).drop_last() =~= pre);
                assert(self.contents@.subrange(0, j + 1 as int).last() == self.contents@[j as int]);
                lemma_list_model_len(pre);
                assert(list_model(self.contents@.subrange(0, j + 1 as int)) == list_model(pre).push(
                    (self.contents@[j as int].0@, self.contents@[j as int].1.model()),
                ));
                assert(list_model(self.contents@.subrange(0, j + 1 as int)).drop_last()
                    =~= list_model(pre));
            }
            if crate::text::str_eq(self.contents[j].0.as_str(), name) {
                proof {
                    lemma_list_model_len(self.contents@.subrange(0, j + 1 as int));
                }
                return Some(j);
            }
        }
        proof {
            assert(self.contents@.subrange(0, 0) =~= Seq::<(String, AllowType)>::empty());
        }
        None
    }

    /// Whether `name` is included as an exact filename.
    pub fn file_included(&self, name: &str) -> (r: bool)
        ensures
            r == (model_find(self.model(), name@) matches Some(EntryModel::File(_))),
    {
        proof {
            lemma_find_index(self.model(), name@);
        }
        match self.find_last(name) {
            Some(i) => {
                proof {
                    lemma_list_model_index(self.contents@, i as int);
                }
                match &self.contents[i].1 {
                    AllowType::File(_) => true,
                    _ => false,
                }
            },
            None => false,
        }
    }

    /// Whether the extension `extension` is included by a wildcard rule.
    pub fn type_included(&self, extension: &str) -> (r: bool)
        ensures
            r == (model_find(self.model(), extension@) matches Some(EntryModel::Type(_))),
    {
        proof {
            lemma_find_index(self.model(), extension@);
        }
        match self.find_last(extension) {
            Some(i) => {
                proof {
                    lemma_list_model_index(self.contents@, i as int);
                }
                match &self.contents[i].1 {
                    AllowType::Type(_) => true,
                    _ => false,
                }
            },
            None => false,
        }
    }

    /// The nested rule tree governing the subfolder `name`, if there is one.
    /// A folder with no entry is pruned entirely.
    pub fn get_folder(&self, name: &str) -> (r: Option<&IncludeList>)
        ensures
            match r {
                Some(sub) => self.spec_get_folder(name@) == Some(*sub)
                    && model_find(self.model(), name@) == Some(EntryModel::Folder(sub.model())),
                None => self.spec_get_folder(name@) is None
                    && !(model_find(self.model(), name@) matches Some(EntryModel::Folder(_))),
            },
    {
        proof {
            lemma_find_index(self.model(), name@);
            lemma_contents_find(self.contents@, name@);
            self.lemma_get_folder_model(name@);
        }
        match self.find_last(name) {
            Some(i) => {
                proof {
                    lemma_list_model_index(self.contents@, i as int);
                }
                match &self.contents[i].1 {
                    AllowType::Folder(f) => Some(&**f),
                    _ => None,
                }
            },
            None => None,
        }
    }

    /// Inserts a leaf entry under the folder path `path[pi..]`, creating or
    /// merging folders along the way.
    fn add_entry_inner(&mut self, path: &Vec<String>, pi: usize, entry: AllowType)
        requires
            pi <= path@.len(),
            !(entry is Folder),
        ensures
            final(self).model() == model_insert(
                old(self).model(),
                path.deep_view(),
                pi as int,
                entry.model(),
            ),
        decreases path@.len() - pi,
    {
        proof {
            lemma_find_index(self.model(), path.deep_view()[pi as int]);
            lemma_list_model_len(self.contents@);
        }
        if pi == path.len() {
            let ghost pre = self.contents@;
            let key = entry.unsafe_to_str().to_owned();
            self.contents.push((key, entry));
            proof {
                lemma_list_model_push(pre, self.contents@.last());
            }
        } else {
            proof {
                assert(path.deep_view()[pi as int] == path@[pi as int]@);
            }
            let found = self.find_last(path[pi].as_str());
            let is_folder = match found {
                Some(i) => {
                    proof {
                        lemma_list_model_index(self.contents@, i as int);
                    }
                    match &self.contents[i].1 {
                        AllowType::Folder(_) => true,
                        _ => false,
                    }
                },
                None => false,
            };
            match found {
                Some(i) if is_folder => {
                    let ghost pre = self.contents@;
                    let (k, at) = self.contents.remove(i);
                    match at {
                        AllowType::Folder(f) => {
                            let mut sub = *f;
                            sub.add_entry_inner(path, pi + 1, entry);
                            self.contents.insert(i, (k, AllowType::Folder(Box::new(sub))));
                            proof {
                                assert(self.contents@ =~= pre.update(
                                    i as int,
                                    (pre[i as int].0, AllowType::Folder(Box::new(sub))),
                                ));
                                lemma_list_model_update(
                                    pre,
                                    i as int,
                                    (pre[i as int].0, AllowType::Folder(Box::new(sub))),
                                );
                                lemma_list_model_index(pre, i as int);
                            }
                        },
                        _ => {
                            proof {
                                lemma_list_model_index(pre, i as int);
                                assert(false);
                            }
                        },
                    }
                },
                _ => {
                    let mut sub = IncludeList::new();
                    sub.add_entry_inner(path, pi + 1, entry);
                    let ghost pre = self.contents@;
                    self.contents.push((path[pi].clone(), AllowType::Folder(Box::new(sub))));
                    proof {
                        lemma_list_model_push(pre, self.contents@.last());
                    }
                },
            }
        }
    }

    /// Parses a line-oriented rule text and merges its entries into this
    /// tree. Each line is a `/`- or `\`-delimited path whose last segment is
    /// a literal filename or a `*.ext` wildcard; a final line counts whether
    /// or not a newline ends it. A misused `*` rejects the whole text and
    /// leaves the tree exactly as it was. A line break with no pending entry
    /// commits nothing and leaves the pending folder path and wildcard state
    /// in place.
    pub fn add_entries(&mut self, raw_contents: &str) -> (r: Result<(), String>)
        ensures
            ({
                let fst = build_result(raw_contents@, old(self).model());
                &&& (r is Ok <==> !fst.failed)
                &&& (r is Ok ==> final(self).model() == fst.tree)
                &&& (r is Err ==> final(self).model() == old(self).model())
            }),
    {
        let ghost cs = raw_contents@;
        let ghost old_model = self.model();
        let ghost init = build_init(old_model);
        let v = crate::text::str_to_chars(raw_contents);

        proof {
            lemma_build_tree_independent(cs, Seq::empty(), old_model);
            assert(build_result(cs, Seq::empty()).failed == build_result(cs, old_model).failed);
        }
        // validate first, so that a malformed text changes nothing
        match find_rule_error(&v) {
            Some(msg) => {
                return Err(msg);
            },
            None => {},
        }

        let n = v.len();
        let mut path: Vec<String> = Vec::new();
        let mut entry: Vec<char> = Vec::new();
        let mut is_wildcard = false;
        let mut wildcard_valid = false;

        let mut i: usize = 0;
        while i < n
            invariant
                i <= n,
                n == cs.len(),
                cs == raw_contents@,
                v@ == cs,
                !build_result(cs, old_model).failed,
                init == build_init(old_model),
                ({
                    let st = build_fold(cs.subrange(0, i as int), init);
                    &&& !st.failed
                    &&& st.tree == self.model()
                    &&& st.path == path.deep_view()
                    &&& st.entry == entry@
                    &&& st.is_wildcard == is_wildcard
                    &&& st.wildcard_valid == wildcard_valid
                }),
            decreases n - i,
        {
            proof {
                assert(cs.subrange(0, i + 1 as int).drop_last() =~= cs.subrange(0, i as int));
                assert(cs.subrange(0, i + 1 as int).last() == cs[i as int]);
            }
            let c = v[i];
            if c == '/' || c == '\\' {
                proof {
                    if build_fold(cs.subrange(0, i as int), init).is_wildcard {
                        lemma_build_failed_sticky(cs, init, i + 1);
                        assert(false);
                    }
                }
                let ghost ppre = path.deep_view();
                path.push(crate::text::chars_to_string(&entry));
                entry = Vec::new();
                proof {
                    assert(path.deep_view() =~= ppre.push(
                        build_fold(cs.subrange(0, i as int), init).entry,
                    ));
                }
            } else if c == '\n' {
                if entry.len() != 0 {
                    if is_wildcard {
                        proof {
                            if !build_fold(cs.subrange(0, i as int), init).wildcard_valid {
                                lemma_build_failed_sticky(cs, init, i + 1);
                                assert(false);
                            }
                        }
                        self.add_entry_inner(
                            &path,
                            0,
                            AllowType::Type(crate::text::chars_to_string(&entry)),
                        );
                    } else {
                        self.add_entry_inner(
                            &path,
                            0,
                            AllowType::File(crate::text::chars_to_string(&entry)),
                        );
                    }
                    path = Vec::new();
                    entry = Vec::new();
                    is_wildcard = false;
                    wildcard_valid = false;
                    proof {
                        assert(path.deep_view() =~= Seq::<Seq<char>>::empty());
                    }
                }
            } else if c == '\r' {
                // carriage returns are omitted
            } else if c == '*' {
                proof {
                    let st = build_fold(cs.subrange(0, i as int), init);
                    if st.entry.len() > 0 || st.is_wildcard {
                        lemma_build_failed_sticky(cs, init, i + 1);
                        assert(false);
                    }
                }
                is_wildcard = true;
            } else if c == '.' {
                proof {
                    let st = build_fold(cs.subrange(0, i as int), init);
                    if st.entry.len() > 0 && st.is_wildcard {
                        lemma_build_failed_sticky(cs, init, i + 1);
                        assert(false);
                    }
                }
                wildcard_valid = is_wildcard;
                entry.push(c);
            } else {
                entry.push(c);
            }
            i = i + 1;
        }
        proof {
            assert(cs.subrange(0, n as int) =~= cs);
        }
        // a pending final line is committed like any other
        if entry.len() != 0 {
            if is_wildcard {
                proof {
                    assert(build_fold(cs, init).wildcard_valid);
                }
                self.add_entry_inner(
                    &path,
                    0,
                    AllowType::Type(crate::text::chars_to_string(&entry)),
                );
            } else {
                self.add_entry_inner(
                    &path,
                    0,
                    AllowType::File(crate::text::chars_to_string(&entry)),
                );
            }
        }
        Ok(())
    }

    /// Builds a rule tree from a rule text.
    pub fn construct(raw_contents: &str) -> (r: Result<IncludeList, String>)
        ensures
            ({
                let fst = build_result(raw_contents@, Seq::<(Seq<char>, EntryModel)>::empty());
                &&& (r is Ok <==> !fst.failed)
                &&& (r is Ok ==> r->Ok_0.model() == fst.tree)
            }),
    {
        let mut incl = IncludeList { contents: Vec::new() };
        match incl.add_entries(raw_contents) {
            Ok(()) => Ok(incl),
            Err(e) => Err(e),
        }
    }
}

} // verus!
