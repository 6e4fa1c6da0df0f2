//! Project resolution: recognizing a valid project by its configuration
//! text, the default export rules, and the walk over a directory tree that
//! selects the files to export and locates the constants script.

use vstd::prelude::*;
use crate::text::{spec_is_number, spec_dec_digits, dec_string, str_to_chars, str_eq, chars_range_to_string};
use crate::include_list::{IncludeList, EntryModel, model_find};
use vstd::string::StringExecFns;

verus! {

broadcast use vstd::seq::axiom_seq_index_decreases, vstd::std_specs::vec::axiom_vec_decreases_to_view;

/// The numeric value of a digit sequence.
pub open spec fn digits_val(s: Seq<char>) -> nat
    decreases s.len(),
{
    if s.len() == 0 {
        0
    } else {
        (digits_val(s.drop_last()) * 10 + (s.last() as int - '0' as int)) as nat
    }
}

pub open spec fn all_digits(s: Seq<char>) -> bool {
    forall|i: int| 0 <= i < s.len() ==> spec_is_number(#[trigger] s[i])
}

/// The number a text denotes as an unsigned byte: an optional leading `+`,
/// then one or more digits, with a value of at most 255.
pub open spec fn parse_u8_spec(s: Seq<char>) -> Option<u8> {
    let digits = if s.len() > 0 && s[0] == '+' {
        s.subrange(1, s.len() as int)
    } else {
        s
    };
    if digits.len() == 0 || !all_digits(digits) || digits_val(digits) > 255 {
        None
    } else {
        Some(digits_val(digits) as u8)
    }
}

/// Parses an unsigned byte out of a character vector.
pub(crate) fn parse_u8_chars(v: &Vec<char>) -> (r: Option<u8>)
    ensures
        r == parse_u8_spec(v@),
{
    let n = v.len();
    let start: usize = if n > 0 && v[0] == '+' { 1 } else { 0 };
    let ghost digits = if v@.len() > 0 && v@[0] == '+' { v@.subrange(1, v@.len() as int) } else { v@ };
    proof {
        assert(digits =~= v@.subrange(start as int, n as int));
    }
    if start == n {
        return None;
    }
    let mut val: u16 = 0;
    let mut big = false;
    let mut i: usize = start;
    while i < n
        invariant
            start <= i <= n,
            n == v@.len(),
            digits == v@.subrange(start as int, n as int),
            all_digits(digits.subrange(0, i - start)),
            big == (digits_val(digits.subrange(0, i - start)) > 255),
            !big ==> val == digits_val(digits.subrange(0, i - start)),
        decreases n - i,
    {
        let c = v[i];
        if !('0' <= c && c <= '9') {
            proof {
                assert(digits[i - start] == v@[i as int]);
                assert(!spec_is_number(digits[i - start]));
            }
            return None;
        }
        proof {
            assert(digits.subrange(0, i + 1 - start).drop_last() =~= digits.subrange(0, i - start));
            assert(digits.subrange(0, i + 1 - start).last() == digits[i - start]);
            assert(digits[i - start] == v@[i as int]);
        }
        if !big {
            let d: u16 = (c as u32 - '0' as u32) as u16;
            val = val * 10 + d;
            if val > 255 {
                big = true;
            }
        }
        i = i + 1;
    }
    proof {
        assert(digits.subrange(0, n - start) =~= digits);
    }
    if big {
        None
    } else {
        Some(val as u8)
    }
}

/// The state of the configuration scan looking for `type="N"`.
pub struct TypeScanState {
    /// How much of `type="` has been matched so far.
    pub idx: int,
    /// The characters collected between the quotes.
    pub contents: Seq<char>,
    /// Set once the closing quote has been seen.
    pub done: Option<Option<u8>>,
}

pub open spec fn type_scan_init() -> TypeScanState {
    TypeScanState { idx: 0, contents: Seq::empty(), done: None }
}

/// The character the scan expects at match position `i`.
pub open spec fn type_pattern_char(i: int) -> char {
    if i == 0 { 't' }
    else if i == 1 { 'y' }
    else if i == 2 { 'p' }
    else if i == 3 { 'e' }
    else if i == 4 { '=' }
    else { '"' }
}

/// One step of the configuration scan. Whitespace is tolerated around the
/// `=` and the quotes; any other mismatch restarts the match.
pub open spec fn type_scan_step(st: TypeScanState, c: char) -> TypeScanState {
    if st.done is Some {
        st
    } else if st.idx < 4 {
        if c == type_pattern_char(st.idx) {
            TypeScanState { idx: st.idx + 1, ..st }
        } else {
            TypeScanState { idx: 0, ..st }
        }
    } else if st.idx < 6 {
        if c == type_pattern_char(st.idx) {
            TypeScanState { idx: st.idx + 1, ..st }
        } else if c != ' ' {
            TypeScanState { idx: 0, ..st }
        } else {
            st
        }
    } else {
        if c == '"' {
            TypeScanState { done: Some(parse_u8_spec(st.contents)), ..st }
        } else if c != ' ' {
            TypeScanState { contents: st.contents.push(c), ..st }
        } else {
            st
        }
    }
}

pub open spec fn type_scan_fold(s: Seq<char>, st: TypeScanState) -> TypeScanState
    decreases s.len(),
{
    if s.len() == 0 {
        st
    } else {
        type_scan_step(type_scan_fold(s.drop_last(), st), s.last())
    }
}

proof fn lemma_type_scan_done_sticky(s: Seq<char>, i: int)
    requires
        0 <= i <= s.len(),
        type_scan_fold(s.subrange(0, i), type_scan_init()).done is Some,
    ensures
        type_scan_fold(s, type_scan_init())
            == type_scan_fold(s.subrange(0, i), type_scan_init()),
    decreases s.len() - i,
{
    if i == s.len() {
        assert(s.subrange(0, i) =~= s);
    } else {
        assert(s.subrange(0, i + 1).drop_last() =~= s.subrange(0, i));
        assert(s.subrange(0, i + 1).last() == s[i]);
        lemma_type_scan_done_sticky(s, i + 1);
    }
}

/// The project type declared by a configuration text: the value between the
/// quotes of the first complete `type="N"`, or nothing when no such field
/// closes or its value is not an unsigned byte.
pub open spec fn spec_project_type(config: Seq<char>) -> Option<u8> {
    match type_scan_fold(config, type_scan_init()).done {
        Some(r) => r,
        None => None,
    }
}

/// The project type declared by a configuration text.
pub fn get_project_type(config: &str) -> (r: Option<u8>)
    ensures
        r == spec_project_type(config@),
{
    let ghost cs = config@;
    let v = str_to_chars(config);
    let n = v.len();
    let mut idx: u8 = 0;
    let mut contents: Vec<char> = Vec::new();
    let mut i: usize = 0;
    while i < n
        invariant
            i <= n,
            n == cs.len(),
            cs == config@,
            v@ == cs,
            idx <= 6,
            ({
                let st = type_scan_fold(cs.subrange(0, i as int), type_scan_init());
                &&& st.done is None
                &&& st.idx == idx as int
                &&& st.contents == contents@
            }),
        decreases n - i,
    {
        proof {
            assert(cs.subrange(0, i + 1 as int).drop_last() =~= cs.subrange(0, i as int));
            assert(cs.subrange(0, i + 1 as int).last() == cs[i as int]);
        }
        let c = v[i];
        if idx < 4 {
            let expected: char = if idx == 0 { 't' } else if idx == 1 { 'y' } else if idx == 2 { 'p' } else { 'e' };
            if c == expected {
                idx = idx + 1;
            } else {
                idx = 0;
            }
        } else if idx < 6 {
            let expected: char = if idx == 4 { '=' } else { '"' };
            if c == expected {
                idx = idx + 1;
            } else if c != ' ' {
                idx = 0;
            }
        } else {
            if c == '"' {
                proof {
                    lemma_type_scan_done_sticky(cs, i + 1);
                }
                return parse_u8_chars(&contents);
            } else if c != ' ' {
                contents.push(c);
            }
        }
        i = i + 1;
    }
    proof {
        assert(cs.subrange(0, n as int) =~= cs);
    }
    None
}

/// The default export rules written for a fresh project of the base type.
pub open spec fn spec_default_rules() -> Seq<char> {
    "fonts/*.ini\nscripts/*.gml\nscripts/attacks/*.gml\nsounds/*.ogg\nsprites/*.png\nconfig.ini\ncharselect.png\nhud.png\nhurt.png\nicon.png\noffscreen.png\nportrait.png\npreview.png\nresult_small.png\ncharselect.ogg"@
}

/// The default rule text for a project type. Only the base project type has
/// one; the other recognized types are not supported yet and must fail
/// loudly, so they are ruled out here.
pub fn make_raw_include(project_type: u8) -> (r: &'static str)
    requires
        project_type == 0,
    ensures
        r@ == spec_default_rules(),
{
    "fonts/*.ini\nscripts/*.gml\nscripts/attacks/*.gml\nsounds/*.ogg\nsprites/*.png\nconfig.ini\ncharselect.png\nhud.png\nhurt.png\nicon.png\noffscreen.png\nportrait.png\npreview.png\nresult_small.png\ncharselect.ogg"
}

/// The root-relative form of a path under `root`, with the separator after
/// the root stripped; nothing when `f` does not extend `root`.
pub open spec fn spec_crop(root: Seq<char>, f: Seq<char>) -> Option<Seq<char>> {
    if f.len() <= root.len() || f.subrange(0, root.len() as int) != root {
        None
    } else if f[root.len() as int] == '/' || f[root.len() as int] == '\\' {
        Some(f.subrange(root.len() as int + 1, f.len() as int))
    } else {
        Some(f.subrange(root.len() as int, f.len() as int))
    }
}

/// Strips the root-directory prefix from a path.
pub fn crop_file_name(root: &str, f: &str) -> (r: Result<String, String>)
    ensures
        r is Ok <==> spec_crop(root@, f@) is Some,
        r is Ok ==> r->Ok_0@ == spec_crop(root@, f@)->Some_0,
{
    let file_chars = str_to_chars(f);
    let root_chars = str_to_chars(root);
    let file_len = file_chars.len();
    let root_len = root_chars.len();
    if file_len <= root_len {
        let mut m = "File ".to_owned();
        m.append(f);
        m.append(" is not a child of the root directory");
        return Err(m);
    }
    let mut i: usize = 0;
    while i < root_len
        invariant
            i <= root_len,
            root_len == root@.len(),
            file_len == f@.len(),
            root_len < file_len,
            file_chars@ == f@,
            root_chars@ == root@,
            forall|j: int| 0 <= j < i ==> f@[j] == root@[j],
        decreases root_len - i,
    {
        if file_chars[i] != root_chars[i] {
            proof {
                assert(f@.subrange(0, root@.len() as int)[i as int] != root@[i as int]);
            }
            let mut m = "File ".to_owned();
            m.append(f);
            m.append(" is not a child of the root directory");
            return Err(m);
        }
        i = i + 1;
    }
    proof {
        assert(f@.subrange(0, root@.len() as int) =~= root@);
    }
    let from: usize = if file_chars[root_len] == '/' || file_chars[root_len] == '\\' {
        root_len + 1
    } else {
        root_len
    };
    Ok(chars_range_to_string(&file_chars, from, file_len))
}

/// The position of the last dot in a name, or `-1`.
pub open spec fn last_dot(s: Seq<char>) -> int
    decreases s.len(),
{
    if s.len() == 0 {
        -1
    } else if s.last() == '.' {
        s.len() - 1
    } else {
        last_dot(s.drop_last())
    }
}

/// The key a file's extension is looked up under: a dot followed by the text
/// after the name's last dot, or the whole name when the name has no
/// extension (no dot, or only a leading one).
pub open spec fn spec_extension_key(name: Seq<char>) -> Seq<char> {
    let ld = last_dot(name);
    if ld <= 0 {
        name
    } else {
        "."@ + name.subrange(ld + 1, name.len() as int)
    }
}

proof fn lemma_last_dot(s: Seq<char>)
    ensures
        -1 <= last_dot(s) < s.len(),
    decreases s.len(),
{
    if s.len() > 0 && s.last() != '.' {
        lemma_last_dot(s.drop_last());
    }
}

/// One entry of an in-memory directory tree, as the surrounding program
/// hands it in: a name, and either a file or a folder with its own entries.
pub struct DirEntry {
    pub name: String,
    pub node: FsNode,
}

pub enum FsNode {
    Dir(Vec<DirEntry>),
    File,
}

/// What a walk over a directory tree produces: the root-relative paths of
/// the included files, the path of the constants script if it was seen, and
/// whether a path failed to resolve against the root.
pub struct VisitOut {
    pub paths: Seq<Seq<char>>,
    pub ue: Option<Seq<char>>,
    pub failed: bool,
}

/// The walk from entry `i` on: subfolders are visited only under a matching
/// folder rule (a folder without one is pruned whole), the file named
/// exactly like the constants script is recorded as such, and other files
/// are collected when their name or extension is included.
pub open spec fn visit_entries(
    entries: Seq<DirEntry>,
    i: int,
    root: Seq<char>,
    cur: Seq<char>,
    ue_name: Seq<char>,
    rules: Seq<(Seq<char>, EntryModel)>,
    acc: VisitOut,
) -> VisitOut
    decreases entries, entries.len() - i,
    via visit_entries_decreases
{
    if acc.failed || i < 0 || i >= entries.len() {
        acc
    } else {
        let e = entries[i];
        let child_path = cur + "/"@ + e.name@;
        let acc2 = match e.node {
            FsNode::Dir(children) => {
                match model_find(rules, e.name@) {
                    Some(EntryModel::Folder(sub)) => visit_entries(
                        children@, 0, root, child_path, ue_name, sub, acc,
                    ),
                    _ => acc,
                }
            },
            FsNode::File => {
                if e.name@ == ue_name {
                    match spec_crop(root, child_path) {
                        Some(p) => VisitOut { ue: Some(p), ..acc },
                        None => VisitOut { failed: true, ..acc },
                    }
                } else if (model_find(rules, e.name@) matches Some(EntryModel::File(_)))
                    || (model_find(rules, spec_extension_key(e.name@))
                        matches Some(EntryModel::Type(_))) {
                    match spec_crop(root, child_path) {
                        Some(p) => VisitOut { paths: acc.paths.push(p), ..acc },
                        None => VisitOut { failed: true, ..acc },
                    }
                } else {
                    acc
                }
            },
        };
        visit_entries(entries, i + 1, root, cur, ue_name, rules, acc2)
    }
}

#[via_fn]
proof fn visit_entries_decreases(
    entries: Seq<DirEntry>,
    i: int,
    root: Seq<char>,
    cur: Seq<char>,
    ue_name: Seq<char>,
    rules: Seq<(Seq<char>, EntryModel)>,
    acc: VisitOut,
) {
    if !(acc.failed || i < 0 || i >= entries.len()) {
        vstd::seq::axiom_seq_index_decreases(entries, i);
        match entries[i].node {
            FsNode::Dir(children) => {
                vstd::std_specs::vec::axiom_vec_decreases_to_view(children);
            },
            FsNode::File => {},
        }
    }
}

/// The whole walk over a tree's top-level entries.
pub open spec fn spec_visit(
    root: Seq<char>,
    entries: Seq<DirEntry>,
    ue_name: Seq<char>,
    rules: Seq<(Seq<char>, EntryModel)>,
) -> VisitOut {
    visit_entries(
        entries,
        0,
        root,
        root,
        ue_name,
        rules,
        VisitOut { paths: Seq::empty(), ue: None, failed: false },
    )
}

/// The lookup key for a file name's extension.
fn extension_key(name: &String) -> (r: String)
    ensures
        r@ == spec_extension_key(name@),
{
    let v = str_to_chars(name.as_str());
    let n = v.len();
    proof {
        assert(name@.subrange(0, n as int) =~= name@);
    }
    let mut j: usize = n;
    while j > 0
        invariant
            j <= n,
            n == name@.len(),
            v@ == name@,
            last_dot(name@) == last_dot(name@.subrange(0, j as int)),
        decreases j,
    {
        proof {
            assert(name@.subrange(0, j as int).drop_last() =~= name@.subrange(0, j - 1));
            assert(name@.subrange(0, j as int).last() == name@[j - 1]);
        }
        if v[j - 1] == '.' {
            proof {
                lemma_last_dot(name@);
            }
            if j == 1 {
                return name.clone();
            }
            let mut r = ".".to_owned();
            let suffix = chars_range_to_string(&v, j, n);
            r.append(suffix.as_str());
            return r;
        }
        j = j - 1;
    }
    proof {
        assert(name@.subrange(0, 0) =~= Seq::<char>::empty());
        lemma_last_dot(name@);
    }
    name.clone()
}

/// Walks one directory's entries, appending what it selects to `paths` and
/// recording the constants script in `ue_path`. Returns `false` when a path
/// fails to resolve against the root.
fn visit_folder(
    root: &str,
    cur: &String,
    entries: &Vec<DirEntry>,
    user_event: &str,
    incl: &IncludeList,
    paths: &mut Vec<String>,
    ue_path: &mut Option<String>,
) -> (ok: bool)
    ensures
        ({
            let out = visit_entries(
                entries@,
                0,
                root@,
                cur@,
                user_event@,
                incl.model(),
                (VisitOut {
                    paths: old(paths).deep_view(),
                    ue: old(ue_path).deep_view(),
                    failed: false,
                }),
            );
            &&& ok == !out.failed
            &&& (ok ==> final(paths).deep_view() == out.paths
                && final(ue_path).deep_view() == out.ue)
        }),
    decreases entries@,
{
    let n = entries.len();
    let mut i: usize = 0;
    while i < n
        invariant
            i <= n,
            n == entries@.len(),
            ({
                let full = visit_entries(
                    entries@,
                    0,
                    root@,
                    cur@,
                    user_event@,
                    incl.model(),
                    (VisitOut {
                        paths: old(paths).deep_view(),
                        ue: old(ue_path).deep_view(),
                        failed: false,
                    }),
                );
                let now = visit_entries(
                    entries@,
                    i as int,
                    root@,
                    cur@,
                    user_event@,
                    incl.model(),
                    (VisitOut { paths: paths.deep_view(), ue: ue_path.deep_view(), failed: false }),
                );
                full == now
            }),
        decreases n - i,
    {
        let ghost acc_now = VisitOut { paths: paths.deep_view(), ue: ue_path.deep_view(), failed: false };
        let entry = &entries[i];
        let mut child_path = cur.clone();
        child_path.append("/");
        child_path.append(entry.name.as_str());
        match &entry.node {
            FsNode::Dir(children) => {
                match incl.get_folder(entry.name.as_str()) {
                    Some(sub_incl) => {
                        proof {
                            vstd::seq::axiom_seq_index_decreases(entries@, i as int);
                            vstd::std_specs::vec::axiom_vec_decreases_to_view(*children);
                        }
                        let ok = visit_folder(
                            root, &child_path, children, user_event, sub_incl, paths, ue_path,
                        );
                        if !ok {
                            proof {
                                let subout = visit_entries(
                                    children@, 0, root@, child_path@, user_event@,
                                    sub_incl.model(), acc_now,
                                );
                                assert(subout.failed);
                                assert(visit_entries(
                                    entries@, i as int, root@, cur@, user_event@, incl.model(),
                                    acc_now,
                                ) == visit_entries(
                                    entries@, i + 1, root@, cur@, user_event@, incl.model(),
                                    subout,
                                ));
                            }
                            return false;
                        }
                    },
                    None => {},
                }
            },
            FsNode::File => {
                if str_eq(entry.name.as_str(), user_event) {
                    match crop_file_name(root, child_path.as_str()) {
                        Ok(p) => {
                            *ue_path = Some(p);
                        },
                        Err(_) => {
                            proof {
                                assert(spec_crop(root@, cur@ + "/"@ + entry.name@) is None);
                                assert(visit_entries(
                                    entries@, i as int, root@, cur@, user_event@, incl.model(),
                                    acc_now,
                                ) == visit_entries(
                                    entries@, i + 1, root@, cur@, user_event@, incl.model(),
                                    (VisitOut { failed: true, ..acc_now }),
                                ));
                            }
                            return false;
                        },
                    }
                } else {
                    let by_name = incl.file_included(entry.name.as_str());
                    let ext = extension_key(&entry.name);
                    let by_type = incl.type_included(ext.as_str());
                    if by_name || by_type {
                        match crop_file_name(root, child_path.as_str()) {
                            Ok(p) => {
                                let ghost pre = paths.deep_view();
                                paths.push(p);
                                proof {
                                    assert(paths.deep_view() =~= pre.push(
                                        spec_crop(root@, cur@ + "/"@ + entry.name@)->Some_0,
                                    ));
                                }
                            },
                            Err(_) => {
                                proof {
                                    assert(spec_crop(root@, cur@ + "/"@ + entry.name@) is None);
                                    assert(visit_entries(
                                        entries@, i as int, root@, cur@, user_event@,
                                        incl.model(), acc_now,
                                    ) == visit_entries(
                                        entries@, i + 1, root@, cur@, user_event@, incl.model(),
                                        (VisitOut { failed: true, ..acc_now }),
                                    ));
                                }
                                return false;
                            },
                        }
                    }
                }
            },
        }
        i = i + 1;
    }
    true
}

/// Resolves a project: reads the project type out of the configuration text,
/// parses the export rules, and walks the directory tree, collecting the
/// root-relative paths of the included files and the path of the constants
/// script `user_event<N>.gml`. Fails when the configuration declares no
/// valid project type, the type is unrecognized, the rule text is malformed,
/// a path does not resolve against the root, or the constants script is
/// nowhere in the walked tree.
pub fn fetch_project(
    root: &str,
    config: &str,
    include_rules: &str,
    tree: &Vec<DirEntry>,
    user_event: u8,
) -> (r: Result<(Vec<String>, String), String>)
    ensures
        ({
            let pt = spec_project_type(config@);
            let ue_name = "user_event"@ + spec_dec_digits(user_event as nat) + ".gml"@;
            let bf = crate::include_list::build_result(include_rules@, Seq::empty());
            match pt {
                None => r is Err,
                Some(t) => {
                    if t > 3 {
                        r is Err
                    } else if bf.failed {
                        r is Err
                    } else {
                        let out = spec_visit(root@, tree@, ue_name, bf.tree);
                        if out.failed {
                            r is Err
                        } else {
                            match out.ue {
                                Some(u) => r is Ok && r->Ok_0.0.deep_view() == out.paths
                                    && r->Ok_0.1@ == u,
                                None => r is Err,
                            }
                        }
                    }
                },
            }
        }),
{
    let project_type = get_project_type(config);
    let t = match project_type {
        Some(t) => t,
        None => {
            let mut m = "Could not find a valid project at directory ".to_owned();
            m.append(root);
            return Err(m);
        },
    };
    if t > 3 {
        let mut m = "Invalid project type for project in directory ".to_owned();
        m.append(root);
        return Err(m);
    }
    let incl = match IncludeList::construct(include_rules) {
        Ok(incl) => incl,
        Err(e) => {
            return Err(e);
        },
    };
    let mut ue_name = "user_event".to_owned();
    ue_name.append(dec_string(user_event as u64).as_str());
    ue_name.append(".gml");

    let cur = root.to_owned();
    let mut paths: Vec<String> = Vec::new();
    let mut ue_path: Option<String> = None;
    proof {
        assert(paths.deep_view() =~= Seq::<Seq<char>>::empty());
        assert(ue_path.deep_view() == None::<Seq<char>>);
    }
    let ok = visit_folder(root, &cur, tree, ue_name.as_str(), &incl, &mut paths, &mut ue_path);
    if !ok {
        let mut m = "Unknown error with project at directory ".to_owned();
        m.append(root);
        return Err(m);
    }
    match ue_path {
        Some(u) => Ok((paths, u)),
        None => {
            let mut m = "Could not locate ".to_owned();
            m.append(ue_name.as_str());
            Err(m)
        },
    }
}

} // verus!
