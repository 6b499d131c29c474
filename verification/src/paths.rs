//! Paths inside a workspace, directory filters and name cleaning.
//!
//! Paths are strings with `/` as the separator; their components follow
//! the rules of `std::path::Path::components` on Unix.
use vstd::prelude::*;
use crate::model::ProjectState;
use crate::text::{join_with, join_chars_with, spec_to_lowercase, to_lowercase, str_eq, chars_of, chars_eq, push_chars, push_str_chars, split_chars, split_on, string_from_chars, trim, trim_str, views};

verus! {

/// One component of a path.
#[derive(Debug)]
pub enum Component {
    RootDir,
    CurDir,
    ParentDir,
    Normal(Vec<char>),
}

/// The mathematical value of a path component.
pub enum ComponentView {
    RootDir,
    CurDir,
    ParentDir,
    Normal(Seq<char>),
}

pub open spec fn component_view(c: Component) -> ComponentView {
    match c {
        Component::RootDir => ComponentView::RootDir,
        Component::CurDir => ComponentView::CurDir,
        Component::ParentDir => ComponentView::ParentDir,
        Component::Normal(v) => ComponentView::Normal(v@),
    }
}

pub open spec fn components_view(cs: Seq<Component>) -> Seq<ComponentView> {
    Seq::new(cs.len(), |i: int| component_view(cs[i]))
}

pub open spec fn dot() -> Seq<char> {
    seq!['.']
}

pub open spec fn dot_dot() -> Seq<char> {
    seq!['.', '.']
}

/// The component that a non-empty segment other than `.` stands for.
pub open spec fn segment_component(seg: Seq<char>) -> ComponentView {
    if seg == dot_dot() {
        ComponentView::ParentDir
    } else {
        ComponentView::Normal(seg)
    }
}

/// The components of the segments, skipping empty ones and `.`.
pub open spec fn segment_components(segs: Seq<Seq<char>>) -> Seq<ComponentView>
    decreases segs.len(),
{
    if segs.len() == 0 {
        Seq::empty()
    } else {
        let rest = segment_components(segs.drop_last());
        let seg = segs.last();
        if seg.len() == 0 || seg == dot() {
            rest
        } else {
            rest.push(segment_component(seg))
        }
    }
}

pub open spec fn is_rooted(s: Seq<char>) -> bool {
    s.len() > 0 && s[0] == '/'
}

/// A leading `.` segment of a relative path is kept as `CurDir`.
pub open spec fn has_cur_dir(s: Seq<char>) -> bool {
    !is_rooted(s) && s.len() > 0 && s[0] == '.' && (s.len() == 1 || s[1] == '/')
}

/// `Path::components` of `s`.
pub open spec fn path_components(s: Seq<char>) -> Seq<ComponentView> {
    let segs = split_on(s, '/');
    if is_rooted(s) {
        seq![ComponentView::RootDir] + segment_components(segs)
    } else if has_cur_dir(s) {
        seq![ComponentView::CurDir] + segment_components(segs)
    } else {
        segment_components(segs)
    }
}

fn is_dot(seg: &[char]) -> (r: bool)
    ensures
        r == (seg@ == dot()),
{
    if seg.len() == 1 && seg[0] == '.' {
        assert(seg@ =~= dot());
        true
    } else {
        false
    }
}

fn is_dot_dot(seg: &[char]) -> (r: bool)
    ensures
        r == (seg@ == dot_dot()),
{
    if seg.len() == 2 && seg[0] == '.' && seg[1] == '.' {
        assert(seg@ =~= dot_dot());
        true
    } else {
        false
    }
}

/// The components of a path.
pub fn components(s: &[char]) -> (out: Vec<Component>)
    ensures
        components_view(out@) == path_components(s@),
{
    let segs = split_chars(s, '/');
    let mut out: Vec<Component> = Vec::new();
    let rooted = s.len() > 0 && s[0] == '/';
    let cur = !rooted && s.len() > 0 && s[0] == '.' && (s.len() == 1 || s[1] == '/');
    if rooted {
        out.push(Component::RootDir);
    } else if cur {
        out.push(Component::CurDir);
    }
    let ghost head = components_view(out@);
    let mut i: usize = 0;
    assert(segs@.take(0) =~= Seq::<Vec<char>>::empty());
    assert(views(segs@.take(0)) =~= Seq::<Seq<char>>::empty());
    assert(components_view(out@) =~= head + segment_components(views(segs@.take(0))));
    while i < segs.len()
        invariant
            i <= segs@.len(),
            components_view(out@) == head + segment_components(views(segs@.take(i as int))),
        decreases segs@.len() - i,
    {
        let seg = &segs[i];
        let ghost before = out@;
        proof {
            assert(views(segs@.take(i + 1)).drop_last() =~= views(segs@.take(i as int)));
            assert(views(segs@.take(i + 1)).last() == seg@);
        }
        if seg.len() == 0 || is_dot(seg.as_slice()) {
        } else if is_dot_dot(seg.as_slice()) {
            out.push(Component::ParentDir);
            assert(components_view(out@) =~= components_view(before).push(ComponentView::ParentDir));
        } else {
            let mut copy: Vec<char> = Vec::new();
            push_chars(&mut copy, seg.as_slice());
            assert(copy@ =~= seg@);
            out.push(Component::Normal(copy));
            assert(components_view(out@) =~= components_view(before).push(ComponentView::Normal(seg@)));
        }
        i = i + 1;
    }
    assert(segs@.take(segs@.len() as int) =~= segs@);
    proof {
        if rooted {
            assert(head =~= seq![ComponentView::RootDir]);
        } else if cur {
            assert(head =~= seq![ComponentView::CurDir]);
        } else {
            assert(head =~= Seq::<ComponentView>::empty());
            assert(head + segment_components(split_on(s@, '/')) =~= segment_components(split_on(s@, '/')));
        }
    }
    out
}

/// The prefix that marks a verbatim Windows path: `\\?\`.
pub open spec fn verbatim_prefix() -> Seq<char> {
    seq!['\\', '\\', '?', '\\']
}

/// `path_to_string`: the path's text without a leading `\\?\`.
pub open spec fn strip_verbatim(s: Seq<char>) -> Seq<char> {
    if s.len() >= 4 && s.take(4) == verbatim_prefix() {
        s.skip(4)
    } else {
        s
    }
}

fn strip_verbatim_chars(s: &[char]) -> (out: Vec<char>)
    ensures
        out@ == strip_verbatim(s@),
{
    let has_prefix = s.len() >= 4 && s[0] == '\\' && s[1] == '\\' && s[2] == '?' && s[3] == '\\';
    proof {
        if s@.len() >= 4 {
            if has_prefix {
                assert(s@.take(4) =~= verbatim_prefix());
            } else {
                if s@.take(4) == verbatim_prefix() {
                    assert(s@[0] == s@.take(4)[0]);
                    assert(s@[1] == s@.take(4)[1]);
                    assert(s@[2] == s@.take(4)[2]);
                    assert(s@[3] == s@.take(4)[3]);
                }
            }
        }
    }
    let start: usize = if has_prefix { 4 } else { 0 };
    let mut out: Vec<char> = Vec::new();
    let mut i = start;
    while i < s.len()
        invariant
            start <= i <= s@.len(),
            out@ == s@.subrange(start as int, i as int),
        decreases s@.len() - i,
    {
        out.push(s[i]);
        i = i + 1;
        assert(out@ =~= s@.subrange(start as int, i as int));
    }
    assert(s@.skip(start as int) =~= s@.subrange(start as int, s@.len() as int));
    assert(s@.skip(0) =~= s@);
    out
}

/// The text of a path, without a leading `\\?\`.
pub fn path_to_string(path: &str) -> (out: String)
    ensures
        out@ == strip_verbatim(path@),
{
    let cs = chars_of(path);
    let stripped = strip_verbatim_chars(cs.as_slice());
    string_from_chars(stripped.as_slice())
}

/// Joins segments with `/`.
pub open spec fn join_segments(segs: Seq<Seq<char>>) -> Seq<char> {
    join_with(segs, '/')
}

/// Resolves the components of a relative path against nothing: `None`
/// where it would leave the starting point or is rooted.
pub open spec fn resolve_components(cs: Seq<ComponentView>) -> Option<Seq<Seq<char>>>
    decreases cs.len(),
{
    if cs.len() == 0 {
        Some(Seq::empty())
    } else {
        match resolve_components(cs.drop_last()) {
            None => None,
            Some(stack) => match cs.last() {
                ComponentView::Normal(seg) => Some(stack.push(seg)),
                ComponentView::CurDir => Some(stack),
                ComponentView::ParentDir => if stack.len() == 0 {
                    None
                } else {
                    Some(stack.drop_last())
                },
                ComponentView::RootDir => None,
            },
        }
    }
}

/// `normalize_relative_path` on success: the normalized relative path.
pub open spec fn normalized_relative(rel: Seq<char>) -> Option<Seq<char>> {
    match resolve_components(path_components(trim(rel))) {
        Some(stack) => Some(strip_verbatim(join_segments(stack))),
        None => None,
    }
}

/// The error that refuses a path.
pub open spec fn outside_message(rel: Seq<char>) -> Seq<char> {
    "Refusing to access a path outside the workspace: "@ + rel
}

fn outside_error(rel: &str) -> (e: String)
    ensures
        e@ == outside_message(rel@),
{
    let mut out = chars_of("Refusing to access a path outside the workspace: ");
    push_str_chars(&mut out, rel);
    string_from_chars(out.as_slice())
}

/// Normalizes a path relative to a workspace: drops `.` and empty
/// segments, resolves `..`, and refuses paths that leave the workspace or
/// are rooted.
pub fn normalize_relative_path(relative_path: &str) -> (r: Result<String, String>)
    ensures
        match normalized_relative(relative_path@) {
            Some(p) => r matches Ok(s) && s@ == p,
            None => r matches Err(e) && e@ == outside_message(relative_path@),
        },
{
    let trimmed = trim_str(relative_path);
    let comps = components(trimmed.as_slice());
    let mut stack: Vec<Vec<char>> = Vec::new();
    let mut i: usize = 0;
    assert(components_view(comps@).take(0) =~= Seq::<ComponentView>::empty());
    while i < comps.len()
        invariant
            i <= comps@.len(),
            components_view(comps@) == path_components(trimmed@),
            trimmed@ == trim(relative_path@),
            resolve_components(components_view(comps@).take(i as int)) == Some(views(stack@)),
        decreases comps@.len() - i,
    {
        let ghost cv = components_view(comps@);
        proof {
            assert(cv.take(i + 1).drop_last() =~= cv.take(i as int));
            assert(cv.take(i + 1).last() == component_view(comps@[i as int]));
        }
        match &comps[i] {
            Component::Normal(seg) => {
                let mut copy: Vec<char> = Vec::new();
                push_chars(&mut copy, seg.as_slice());
                let ghost before = stack@;
                stack.push(copy);
                assert(views(stack@) =~= views(before).push(seg@));
            },
            Component::CurDir => {},
            Component::ParentDir => {
                if stack.len() == 0 {
                    proof {
                        assert(cv.take(i + 1).len() > 0);
                        assert(cv.take(i + 1).last() == ComponentView::ParentDir);
                        assert(views(stack@).len() == 0);
                        assert(resolve_components(cv.take(i + 1)) is None);
                        lemma_resolve_none_stays(cv, i as int + 1);
                    }
                    return Err(outside_error(relative_path));
                }
                let ghost before = stack@;
                stack.pop();
                assert(views(stack@) =~= views(before).drop_last());
            },
            Component::RootDir => {
                proof {
                    assert(cv.take(i + 1).len() > 0);
                    assert(cv.take(i + 1).last() == ComponentView::RootDir);
                    assert(resolve_components(cv.take(i + 1)) is None);
                    lemma_resolve_none_stays(cv, i as int + 1);
                }
                return Err(outside_error(relative_path));
            },
        }
        i = i + 1;
    }
    assert(components_view(comps@).take(comps@.len() as int) =~= components_view(comps@));
    let joined = join_chars_with(&stack, '/');
    let stripped = strip_verbatim_chars(joined.as_slice());
    Ok(string_from_chars(stripped.as_slice()))
}

proof fn lemma_resolve_none_stays(cs: Seq<ComponentView>, k: int)
    requires
        0 <= k <= cs.len(),
        resolve_components(cs.take(k)) is None,
    ensures
        resolve_components(cs) is None,
    decreases cs.len() - k,
{
    if k < cs.len() {
        assert(cs.take(k + 1).drop_last() =~= cs.take(k));
        lemma_resolve_none_stays(cs, k + 1);
    } else {
        assert(cs.take(k) =~= cs);
    }
}

/// `PathBuf::join` on Unix: a rooted `tail` replaces the base; otherwise
/// the two are joined with one separator.
pub open spec fn path_join(base: Seq<char>, tail: Seq<char>) -> Seq<char> {
    if is_rooted(tail) {
        tail
    } else if base.len() == 0 {
        tail
    } else if base.last() == '/' {
        base + tail
    } else {
        base.push('/') + tail
    }
}

/// `Path::starts_with`: the components of `base` begin those of `path`.
pub open spec fn path_starts_with(path: Seq<char>, base: Seq<char>) -> bool {
    let p = path_components(path);
    let b = path_components(base);
    b.len() <= p.len() && p.take(b.len() as int) == b
}

fn component_eq(a: &Component, b: &Component) -> (r: bool)
    ensures
        r == (component_view(*a) == component_view(*b)),
{
    match (a, b) {
        (Component::RootDir, Component::RootDir) => true,
        (Component::CurDir, Component::CurDir) => true,
        (Component::ParentDir, Component::ParentDir) => true,
        (Component::Normal(x), Component::Normal(y)) => chars_eq(x.as_slice(), y.as_slice()),
        _ => false,
    }
}

/// Two lists of components are the same.
pub fn components_equal(a: &Vec<Component>, b: &Vec<Component>) -> (r: bool)
    ensures
        r == (components_view(a@) == components_view(b@)),
{
    if a.len() != b.len() {
        assert(components_view(a@).len() != components_view(b@).len());
        return false;
    }
    let mut i: usize = 0;
    while i < a.len()
        invariant
            a@.len() == b@.len(),
            i <= a@.len(),
            forall|k: int| 0 <= k < i ==> component_view(a@[k]) == component_view(b@[k]),
        decreases a@.len() - i,
    {
        if !component_eq(&a[i], &b[i]) {
            assert(components_view(a@)[i as int] != components_view(b@)[i as int]);
            return false;
        }
        i = i + 1;
    }
    assert(components_view(a@) =~= components_view(b@));
    true
}

fn starts_with_chars(path: &[char], base: &[char]) -> (r: bool)
    ensures
        r == path_starts_with(path@, base@),
{
    let p = components(path);
    let b = components(base);
    assert(components_view(p@).len() == p@.len());
    assert(components_view(b@).len() == b@.len());
    if b.len() > p.len() {
        return false;
    }
    let mut i: usize = 0;
    while i < b.len()
        invariant
            b@.len() <= p@.len(),
            i <= b@.len(),
            components_view(p@) == path_components(path@),
            components_view(b@) == path_components(base@),
            forall|k: int| 0 <= k < i ==> component_view(p@[k]) == component_view(b@[k]),
        decreases b@.len() - i,
    {
        if !component_eq(&p[i], &b[i]) {
            assert(components_view(p@).take(b@.len() as int)[i as int] != components_view(b@)[i as int]);
            return false;
        }
        i = i + 1;
    }
    assert(components_view(p@).take(b@.len() as int) =~= components_view(b@));
    true
}

fn join_path_chars(base: &[char], tail: &[char]) -> (out: Vec<char>)
    ensures
        out@ == path_join(base@, tail@),
{
    let mut out: Vec<char> = Vec::new();
    if tail.len() > 0 && tail[0] == '/' {
        push_chars(&mut out, tail);
        return out;
    }
    push_chars(&mut out, base);
    if base.len() > 0 && base[base.len() - 1] != '/' {
        out.push('/');
    }
    push_chars(&mut out, tail);
    out
}

/// Joins a relative path onto a base directory.
pub fn join_paths(base: &str, tail: &str) -> (out: String)
    ensures
        out@ == path_join(base@, tail@),
{
    let b = chars_of(base);
    let t = chars_of(tail);
    let joined = join_path_chars(b.as_slice(), t.as_slice());
    string_from_chars(joined.as_slice())
}

/// `resolve_workspace_target` on success.
pub open spec fn resolved_target(root: Seq<char>, rel: Seq<char>) -> Option<Seq<char>> {
    match normalized_relative(rel) {
        Some(n) => {
            let joined = path_join(root, n);
            if path_starts_with(joined, root) {
                Some(joined)
            } else {
                None
            }
        },
        None => None,
    }
}

/// Resolves a path relative to a workspace root, refusing one that
/// leaves it.
pub fn resolve_workspace_target(root: &str, relative_path: &str) -> (r: Result<String, String>)
    ensures
        match resolved_target(root@, relative_path@) {
            Some(p) => r matches Ok(s) && s@ == p,
            None => r matches Err(e) && e@ == outside_message(relative_path@),
        },
{
    let normalized = normalize_relative_path(relative_path)?;
    let root_chars = chars_of(root);
    let rel_chars = chars_of(normalized.as_str());
    let joined = join_path_chars(root_chars.as_slice(), rel_chars.as_slice());
    if !starts_with_chars(joined.as_slice(), root_chars.as_slice()) {
        return Err(outside_error(relative_path));
    }
    Ok(string_from_chars(joined.as_slice()))
}

/// `Path::file_name`: the last component when it is a normal one.
pub open spec fn file_name(s: Seq<char>) -> Option<Seq<char>> {
    let cs = path_components(s);
    if cs.len() > 0 {
        match cs.last() {
            ComponentView::Normal(n) => Some(n),
            _ => None,
        }
    } else {
        None
    }
}

/// The last component of a path, when it is a normal one.
pub fn path_file_name(path: &str) -> (r: Option<String>)
    ensures
        match file_name(path@) {
            Some(n) => r matches Some(x) && x@ == n,
            None => r is None,
        },
{
    let cs = chars_of(path);
    let comps = components(cs.as_slice());
    assert(components_view(comps@).len() == comps@.len());
    if comps.len() == 0 {
        return None;
    }
    let last = comps.len() - 1;
    assert(components_view(comps@).last() == component_view(comps@[last as int]));
    match &comps[last] {
        Component::Normal(n) => Some(string_from_chars(n.as_slice())),
        _ => None,
    }
}

/// The name a workspace gets: the given name when it is not blank, else
/// the project's name, else the last component of its path, else
/// `Workspace`.
pub open spec fn workspace_name_for(name: Option<Seq<char>>, project_name: Option<String>, project_path: Option<String>) -> Seq<char> {
    if name is Some && trim(name->0).len() > 0 {
        trim(name->0)
    } else if project_name is Some {
        project_name->0@
    } else if project_path is Some && file_name(project_path->0@) is Some {
        file_name(project_path->0@)->0
    } else {
        "Workspace"@
    }
}

pub open spec fn opt_str_view(o: Option<&str>) -> Option<Seq<char>> {
    match o {
        Some(s) => Some(s@),
        None => None,
    }
}

/// Chooses the name of a workspace.
pub fn normalized_workspace_name(name: Option<&str>, project: &ProjectState) -> (r: String)
    ensures
        r@ == workspace_name_for(opt_str_view(name), project.name, project.path),
{
    if let Some(n) = name {
        let t = trim_str(n);
        if t.len() > 0 {
            return string_from_chars(t.as_slice());
        }
    }
    if let Some(pn) = &project.name {
        return pn.clone();
    }
    if let Some(path) = &project.path {
        if let Some(f) = path_file_name(path.as_str()) {
            return f;
        }
    }
    "Workspace".to_owned()
}

/// Directories never copied into a sandbox nor listed in the project
/// tree.
pub open spec fn skipped_directory(name: Seq<char>) -> bool {
    ||| name == ".git"@
    ||| name == ".next"@
    ||| name == ".turbo"@
    ||| name == ".venv"@
    ||| name == "venv"@
    ||| name == ".tox"@
    ||| name == ".yarn"@
    ||| name == ".pnpm-store"@
    ||| name == "node_modules"@
    ||| name == "dist"@
    ||| name == "out"@
    ||| name == "build"@
    ||| name == "coverage"@
    ||| name == "__pycache__"@
}

/// Directories that a sandbox shares with the project through a link.
pub open spec fn linked_directory(name: Seq<char>) -> bool {
    ||| name == "node_modules"@
    ||| name == ".venv"@
    ||| name == "venv"@
    ||| name == ".tox"@
    ||| name == ".yarn"@
    ||| name == ".pnpm-store"@
}

/// Whether a directory is left out of copies and listings.
pub fn should_skip_directory(name: &str) -> (r: bool)
    ensures
        r == skipped_directory(name@),
{
    str_eq(name, ".git") || str_eq(name, ".next") || str_eq(name, ".turbo") || str_eq(name, ".venv")
        || str_eq(name, "venv") || str_eq(name, ".tox") || str_eq(name, ".yarn") || str_eq(
        name,
        ".pnpm-store",
    ) || str_eq(name, "node_modules") || str_eq(name, "dist") || str_eq(name, "out") || str_eq(
        name,
        "build",
    ) || str_eq(name, "coverage") || str_eq(name, "__pycache__")
}

/// Whether a directory is shared with the project through a link.
pub fn should_link_directory(name: &str) -> (r: bool)
    ensures
        r == linked_directory(name@),
{
    str_eq(name, "node_modules") || str_eq(name, ".venv") || str_eq(name, "venv") || str_eq(
        name,
        ".tox",
    ) || str_eq(name, ".yarn") || str_eq(name, ".pnpm-store")
}

/// Every directory that a sandbox links to is also one it never copies.
pub proof fn law_linked_directories_are_skipped(name: Seq<char>)
    requires
        linked_directory(name),
    ensures
        skipped_directory(name),
{
}

/// The characters a session label keeps as they are.
pub open spec fn label_char(c: char) -> bool {
    ||| 'a' <= c <= 'z'
    ||| 'A' <= c <= 'Z'
    ||| '0' <= c <= '9'
    ||| c == '.'
    ||| c == '_'
    ||| c == '-'
}

/// Replaces each run of other characters by one `-`; the flag says
/// whether the last character written was such a replacement.
pub open spec fn dash_runs(s: Seq<char>) -> (Seq<char>, bool)
    decreases s.len(),
{
    if s.len() == 0 {
        (Seq::empty(), false)
    } else {
        let (out, prev) = dash_runs(s.drop_last());
        let c = s.last();
        if label_char(c) {
            (out.push(c), false)
        } else if !prev {
            (out.push('-'), true)
        } else {
            (out, prev)
        }
    }
}

pub open spec fn trim_dash_start(s: Seq<char>) -> Seq<char>
    decreases s.len(),
{
    if s.len() > 0 && s[0] == '-' {
        trim_dash_start(s.drop_first())
    } else {
        s
    }
}

pub open spec fn trim_dash_end(s: Seq<char>) -> Seq<char>
    decreases s.len(),
{
    if s.len() > 0 && s.last() == '-' {
        trim_dash_end(s.drop_last())
    } else {
        s
    }
}

/// What `sanitize_segment` makes of an already trimmed, lower-cased text.
pub open spec fn sanitized(lower: Seq<char>) -> Seq<char> {
    let t = trim_dash_end(trim_dash_start(dash_runs(lower).0));
    if t.len() == 0 {
        "agent"@
    } else {
        t
    }
}

proof fn lemma_trim_dash_start_skip(s: Seq<char>, k: int)
    requires
        0 <= k <= s.len(),
        forall|j: int| 0 <= j < k ==> s[j] == '-',
        k == s.len() || s[k] != '-',
    ensures
        trim_dash_start(s) == s.skip(k),
    decreases k,
{
    if k == 0 {
        assert(s.skip(0) =~= s);
    } else {
        let t = s.drop_first();
        assert forall|j: int| 0 <= j < k - 1 implies t[j] == '-' by {
            assert(t[j] == s[j + 1]);
        }
        if k - 1 < t.len() {
            assert(t[k - 1] == s[k]);
        }
        lemma_trim_dash_start_skip(t, k - 1);
        assert(t.skip(k - 1) =~= s.skip(k));
    }
}

proof fn lemma_trim_dash_end_take(s: Seq<char>, e: int)
    requires
        0 <= e <= s.len(),
        forall|j: int| e <= j < s.len() ==> s[j] == '-',
        e == 0 || s[e - 1] != '-',
    ensures
        trim_dash_end(s) == s.take(e),
    decreases s.len() - e,
{
    if e == s.len() {
        assert(s.take(e) =~= s);
    } else {
        let t = s.drop_last();
        assert forall|j: int| e <= j < t.len() implies t[j] == '-' by {
            assert(t[j] == s[j]);
        }
        if e > 0 {
            assert(t[e - 1] == s[e - 1]);
        }
        lemma_trim_dash_end_take(t, e);
        assert(t.take(e) =~= s.take(e));
    }
}

fn strip_dashes(s: &[char]) -> (out: Vec<char>)
    ensures
        out@ == trim_dash_end(trim_dash_start(s@)),
{
    let mut start: usize = 0;
    while start < s.len() && s[start] == '-'
        invariant
            start <= s@.len(),
            forall|j: int| 0 <= j < start ==> s@[j] == '-',
        decreases s@.len() - start,
    {
        start = start + 1;
    }
    proof {
        lemma_trim_dash_start_skip(s@, start as int);
    }
    let mut end: usize = s.len();
    while end > start && s[end - 1] == '-'
        invariant
            start <= end <= s@.len(),
            forall|j: int| end <= j < s@.len() ==> s@[j] == '-',
        decreases end,
    {
        end = end - 1;
    }
    proof {
        let t = s@.skip(start as int);
        let e = end - start;
        assert forall|j: int| e <= j < t.len() implies t[j] == '-' by {
            assert(t[j] == s@[j + start]);
        }
        if e > 0 {
            assert(t[e - 1] == s@[end - 1]);
        }
        lemma_trim_dash_end_take(t, e);
        assert(t.take(e) =~= s@.subrange(start as int, end as int));
    }
    let mut out: Vec<char> = Vec::new();
    let mut i = start;
    while i < end
        invariant
            start <= i <= end <= s@.len(),
            out@ == s@.subrange(start as int, i as int),
        decreases end - i,
    {
        out.push(s[i]);
        i = i + 1;
        assert(out@ =~= s@.subrange(start as int, i as int));
    }
    out
}

/// The part of `sanitize_segment` that follows the case mapping: keeps
/// ASCII letters, digits, `.`, `_` and `-`, turns each run of other
/// characters into one `-`, strips leading and trailing dashes, and
/// falls back to `agent` when nothing is left.
pub fn sanitize_lowercased(lower: &str) -> (out: String)
    ensures
        out@ == sanitized(lower@),
{
    let cs = chars_of(lower);
    let mut out: Vec<char> = Vec::new();
    let mut previous_dash = false;
    let mut i: usize = 0;
    while i < cs.len()
        invariant
            i <= cs@.len(),
            cs@ == lower@,
            dash_runs(cs@.take(i as int)) == (out@, previous_dash),
        decreases cs@.len() - i,
    {
        let c = cs[i];
        proof {
            assert(cs@.take(i + 1).drop_last() =~= cs@.take(i as int));
        }
        let keep = ('a' <= c && c <= 'z') || ('A' <= c && c <= 'Z') || ('0' <= c && c <= '9')
            || c == '.' || c == '_' || c == '-';
        if keep {
            out.push(c);
            previous_dash = false;
        } else if !previous_dash {
            out.push('-');
            previous_dash = true;
        }
        i = i + 1;
    }
    assert(cs@.take(cs@.len() as int) =~= cs@);
    let stripped = strip_dashes(out.as_slice());
    if stripped.len() == 0 {
        "agent".to_owned()
    } else {
        string_from_chars(stripped.as_slice())
    }
}

/// Turns a label into a segment fit for a file or branch name: trimmed,
/// lower-cased, then cleaned as `sanitize_lowercased` says.
pub fn sanitize_segment(input: &str) -> (out: String)
    ensures
        out@ == sanitized(spec_to_lowercase(trim(input@))),
        out@.len() > 0,
        forall|i: int| 0 <= i < out@.len() ==> label_char(#[trigger] out@[i]),
        out@[0] != '-',
        out@.last() != '-',
{
    proof {
        law_sanitized_shape(spec_to_lowercase(trim(input@)));
    }
    let trimmed = string_from_chars(trim_str(input).as_slice());
    let lower = to_lowercase(trimmed.as_str());
    sanitize_lowercased(lower.as_str())
}

/// A path resolved inside a workspace never leaves it: it starts with
/// the workspace's root.
pub proof fn law_resolved_target_stays_inside(root: Seq<char>, rel: Seq<char>)
    ensures
        resolved_target(root, rel) matches Some(p) ==> path_starts_with(p, root),
{
}

proof fn lemma_dash_runs_chars(s: Seq<char>)
    ensures
        forall|i: int| 0 <= i < dash_runs(s).0.len() ==> label_char(#[trigger] dash_runs(s).0[i]) && (dash_runs(s).0[i] == '-'
            || s.contains(dash_runs(s).0[i])),
        (forall|i: int| 0 <= i < s.len() ==> label_char(#[trigger] s[i])) ==> dash_runs(s).0 == s,
    decreases s.len(),
{
    if s.len() > 0 {
        let init = s.drop_last();
        lemma_dash_runs_chars(init);
        let o = dash_runs(s).0;
        let o0 = dash_runs(init).0;
        assert forall|i: int| 0 <= i < o.len() implies label_char(#[trigger] o[i]) && (o[i] == '-' || s.contains(o[i])) by {
            if i < o0.len() {
                assert(o[i] == o0[i]);
                if o0[i] != '-' {
                    let j = choose|j: int| 0 <= j < init.len() && init[j] == o0[i];
                    assert(s[j] == init[j]);
                }
            } else {
                assert(s[s.len() - 1] == s.last());
            }
        }
        if forall|i: int| 0 <= i < s.len() ==> label_char(#[trigger] s[i]) {
            assert forall|i: int| 0 <= i < init.len() implies label_char(#[trigger] init[i]) by {
                assert(init[i] == s[i]);
            }
            assert(label_char(s[s.len() - 1]));
            assert(init.push(s.last()) =~= s);
        }
    }
}

proof fn lemma_trim_dash_start_shape(s: Seq<char>)
    ensures
        exists|k: int| 0 <= k <= s.len() && trim_dash_start(s) == #[trigger] s.skip(k),
        trim_dash_start(s).len() == 0 || trim_dash_start(s)[0] != '-',
        s.len() > 0 && s[0] != '-' ==> trim_dash_start(s) == s,
    decreases s.len(),
{
    if s.len() > 0 && s[0] == '-' {
        lemma_trim_dash_start_shape(s.drop_first());
        let k = choose|k: int| 0 <= k <= s.drop_first().len() && trim_dash_start(s.drop_first()) == #[trigger] s.drop_first().skip(k);
        assert(s.drop_first().skip(k) =~= s.skip(k + 1));
    } else {
        assert(s.skip(0) =~= s);
    }
}

proof fn lemma_trim_dash_end_shape(s: Seq<char>)
    ensures
        exists|e: int| 0 <= e <= s.len() && trim_dash_end(s) == #[trigger] s.take(e),
        trim_dash_end(s).len() == 0 || trim_dash_end(s).last() != '-',
        s.len() > 0 && s.last() != '-' ==> trim_dash_end(s) == s,
    decreases s.len(),
{
    if s.len() > 0 && s.last() == '-' {
        lemma_trim_dash_end_shape(s.drop_last());
        let e = choose|e: int| 0 <= e <= s.drop_last().len() && trim_dash_end(s.drop_last()) == #[trigger] s.drop_last().take(e);
        assert(s.drop_last().take(e) =~= s.take(e));
    } else {
        assert(s.take(s.len() as int) =~= s);
    }
}

/// What sanitizing gives is never empty, holds only ASCII letters, digits,
/// `.`, `_` and `-`, each a dash or a character of its input (unless it is
/// the fallback `agent`), neither starts nor ends with a dash, and
/// sanitizing it again gives it back.
pub proof fn law_sanitized_shape(lower: Seq<char>)
    ensures
        ({
            let r = sanitized(lower);
            &&& r.len() > 0
            &&& forall|i: int| 0 <= i < r.len() ==> label_char(#[trigger] r[i])
            &&& r != "agent"@ ==> forall|i: int| 0 <= i < r.len() ==> (#[trigger] r[i] == '-' || lower.contains(r[i]))
            &&& r[0] != '-'
            &&& r.last() != '-'
            &&& sanitized(r) == r
        }),
{
    reveal_strlit("agent");
    let o = dash_runs(lower).0;
    let st = trim_dash_start(o);
    let t = trim_dash_end(st);
    let r = sanitized(lower);
    lemma_dash_runs_chars(lower);
    lemma_trim_dash_start_shape(o);
    lemma_trim_dash_end_shape(st);
    let k = choose|k: int| 0 <= k <= o.len() && st == #[trigger] o.skip(k);
    let e = choose|e: int| 0 <= e <= st.len() && t == #[trigger] st.take(e);
    if t.len() > 0 {
        assert forall|i: int| 0 <= i < t.len() implies label_char(#[trigger] t[i]) && (t[i] == '-' || lower.contains(t[i])) by {
            assert(t[i] == o[i + k]);
        }
        assert(t[0] == st[0]);
    }
    lemma_dash_runs_chars(r);
    lemma_trim_dash_start_shape(r);
    lemma_trim_dash_end_shape(r);
}

pub(crate) proof fn lemma_split_no_sep(s: Seq<char>, sep: char)
    requires
        !s.contains(sep),
    ensures
        split_on(s, sep) == seq![s],
    decreases s.len(),
{
    if s.len() > 0 {
        assert(!s.drop_last().contains(sep)) by {
            if s.drop_last().contains(sep) {
                let k = choose|k: int| 0 <= k < s.drop_last().len() && s.drop_last()[k] == sep;
                assert(s[k] == sep);
            }
        }
        lemma_split_no_sep(s.drop_last(), sep);
        assert(s[s.len() - 1] != sep);
        assert(s.drop_last().push(s.last()) =~= s);
        assert(seq![s.drop_last()].update(0, s.drop_last().push(s.last())) =~= seq![s]);
    } else {
        assert(s =~= Seq::<char>::empty());
    }
}

pub(crate) proof fn lemma_split_concat(x: Seq<char>, y: Seq<char>, sep: char)
    ensures
        split_on(x + seq![sep] + y, sep) == split_on(x, sep) + split_on(y, sep),
    decreases y.len(),
{
    let z = x + seq![sep] + y;
    if y.len() == 0 {
        assert(z.drop_last() =~= x);
        assert(z.last() == sep);
        assert(split_on(y, sep) =~= seq![Seq::<char>::empty()]);
        assert(split_on(x, sep).push(Seq::<char>::empty()) =~= split_on(x, sep) + split_on(y, sep));
    } else {
        lemma_split_concat(x, y.drop_last(), sep);
        crate::text::lemma_split_on_nonempty(y.drop_last(), sep);
        assert(z.drop_last() =~= x + seq![sep] + y.drop_last());
        assert(z.last() == y.last());
        let px = split_on(x, sep);
        let py = split_on(y.drop_last(), sep);
        if y.last() == sep {
            assert((px + py).push(Seq::<char>::empty()) =~= px + py.push(Seq::<char>::empty()));
        } else {
            assert((px + py).update((px + py).len() - 1, (px + py).last().push(y.last())) =~= px + py.update(
                py.len() - 1,
                py.last().push(y.last()),
            ));
        }
    }
}

pub proof fn lemma_join_prefix(segs: Seq<Seq<char>>, sep: char)
    requires
        segs.len() > 0,
    ensures
        join_with(segs, sep).len() >= segs[0].len(),
        join_with(segs, sep).take(segs[0].len() as int) == segs[0],
        segs.len() > 1 ==> join_with(segs, sep).len() > segs[0].len() && join_with(segs, sep)[segs[0].len() as int] == sep,
    decreases segs.len(),
{
    if segs.len() > 1 {
        lemma_join_prefix(segs.drop_last(), sep);
        let j = join_with(segs.drop_last(), sep);
        assert(join_with(segs, sep) == j.push(sep) + segs.last());
        if segs.len() > 2 {
            assert(join_with(segs, sep)[segs[0].len() as int] == j[segs[0].len() as int]);
        }
        assert(join_with(segs, sep).take(segs[0].len() as int) =~= j.take(segs[0].len() as int));
    }
}

/// Segments a normalized path is made of: each non-empty, without `/`,
/// and neither `.` nor `..`.
pub open spec fn normal_segments(segs: Seq<Seq<char>>) -> bool {
    forall|i: int| 0 <= i < segs.len() ==> {
        &&& (#[trigger] segs[i]).len() > 0
        &&& !segs[i].contains('/')
        &&& segs[i] != dot()
        &&& segs[i] != dot_dot()
    }
}

/// Joining pieces that hold no separator and splitting the result gives
/// the pieces back.
pub(crate) proof fn lemma_split_join_with(segs: Seq<Seq<char>>, sep: char)
    requires
        segs.len() > 0,
        forall|i: int| 0 <= i < segs.len() ==> !(#[trigger] segs[i]).contains(sep),
    ensures
        split_on(join_with(segs, sep), sep) == segs,
    decreases segs.len(),
{
    if segs.len() == 1 {
        lemma_split_no_sep(segs[0], sep);
        assert(seq![segs[0]] =~= segs);
    } else {
        let init = segs.drop_last();
        lemma_split_join_with(init, sep);
        assert(join_with(segs, sep) =~= join_with(init, sep) + seq![sep] + segs.last());
        lemma_split_concat(join_with(init, sep), segs.last(), sep);
        lemma_split_no_sep(segs.last(), sep);
        assert(init + seq![segs.last()] =~= segs);
    }
}

proof fn lemma_split_join(segs: Seq<Seq<char>>)
    requires
        segs.len() > 0,
        forall|i: int| 0 <= i < segs.len() ==> !(#[trigger] segs[i]).contains('/'),
    ensures
        split_on(join_segments(segs), '/') == segs,
    decreases segs.len(),
{
    if segs.len() == 1 {
        lemma_split_no_sep(segs[0], '/');
        assert(seq![segs[0]] =~= segs);
    } else {
        let init = segs.drop_last();
        lemma_split_join(init);
        assert(join_segments(segs) =~= join_segments(init) + seq!['/'] + segs.last());
        lemma_split_concat(join_segments(init), segs.last(), '/');
        lemma_split_no_sep(segs.last(), '/');
        assert(init + seq![segs.last()] =~= segs);
    }
}

proof fn lemma_normal_components(segs: Seq<Seq<char>>)
    requires
        normal_segments(segs),
    ensures
        segment_components(segs) == Seq::new(segs.len(), |i: int| ComponentView::Normal(segs[i])),
        resolve_components(segment_components(segs)) == Some(segs),
    decreases segs.len(),
{
    if segs.len() > 0 {
        let init = segs.drop_last();
        assert(normal_segments(init)) by {
            assert forall|i: int| 0 <= i < init.len() implies {
                &&& (#[trigger] init[i]).len() > 0
                &&& !init[i].contains('/')
                &&& init[i] != dot()
                &&& init[i] != dot_dot()
            } by {
                assert(init[i] == segs[i]);
            }
        }
        lemma_normal_components(init);
        let last = segs.last();
        assert(segs[segs.len() - 1] == last);
        assert(segment_components(segs) =~= Seq::new(segs.len(), |i: int| ComponentView::Normal(segs[i])));
        let cs = segment_components(segs);
        assert(cs.drop_last() =~= segment_components(init));
        assert(init.push(last) =~= segs);
    } else {
        assert(segment_components(segs) =~= Seq::new(segs.len(), |i: int| ComponentView::Normal(segs[i])));
    }
}

/// The components of a path made of normal segments are those segments.
pub proof fn lemma_normal_path_components(segs: Seq<Seq<char>>)
    requires
        normal_segments(segs),
    ensures
        path_components(join_segments(segs)) == Seq::new(segs.len(), |i: int| ComponentView::Normal(segs[i])),
        resolve_components(path_components(join_segments(segs))) == Some(segs),
{
    let q = join_segments(segs);
    lemma_normal_components(segs);
    if segs.len() == 0 {
        assert(q =~= Seq::<char>::empty());
        assert(split_on(q, '/') =~= seq![Seq::<char>::empty()]);
        assert(seq![Seq::<char>::empty()].drop_last() =~= Seq::<Seq<char>>::empty());
        assert(segment_components(seq![Seq::<char>::empty()]) =~= Seq::<ComponentView>::empty());
    } else {
        lemma_split_join(segs);
        lemma_join_prefix(segs, '/');
        let s0 = segs[0];
        assert(s0.len() > 0 && !s0.contains('/'));
        assert(q[0] == s0[0]) by {
            assert(q.take(s0.len() as int)[0] == q[0]);
        }
        assert(s0[0] != '/');
        if s0.len() >= 2 {
            assert(q[1] == s0[1]) by {
                assert(q.take(s0.len() as int)[1] == q[1]);
            }
            assert(s0[1] != '/');
        } else {
            assert(s0 != dot());
            if s0[0] == '.' {
                assert(s0 =~= dot());
            }
        }
        assert(!is_rooted(q));
        assert(!has_cur_dir(q));
    }
}

/// A normalized path made of normal segments, with nothing to trim at its
/// ends and no verbatim prefix, normalizes to itself, and all its
/// components are normal.
pub proof fn law_normalized_path_is_stable(segs: Seq<Seq<char>>)
    requires
        normal_segments(segs),
        trim(join_segments(segs)) == join_segments(segs),
        strip_verbatim(join_segments(segs)) == join_segments(segs),
    ensures
        normalized_relative(join_segments(segs)) == Some(join_segments(segs)),
        forall|i: int| 0 <= i < path_components(join_segments(segs)).len() ==> (#[trigger] path_components(
            join_segments(segs),
        )[i]) is Normal,
{
    lemma_normal_path_components(segs);
}

pub(crate) proof fn lemma_split_parts_no_sep(s: Seq<char>, sep: char)
    ensures
        forall|i: int| 0 <= i < split_on(s, sep).len() ==> !(#[trigger] split_on(s, sep)[i]).contains(sep),
    decreases s.len(),
{
    if s.len() > 0 {
        lemma_split_parts_no_sep(s.drop_last(), sep);
        crate::text::lemma_split_on_nonempty(s.drop_last(), sep);
        let parts = split_on(s.drop_last(), sep);
        let out = split_on(s, sep);
        assert forall|i: int| 0 <= i < out.len() implies !(#[trigger] out[i]).contains(sep) by {
            if s.last() == sep {
                if i < parts.len() {
                    assert(out[i] == parts[i]);
                } else {
                    assert(out[i] =~= Seq::<char>::empty());
                }
            } else if i < parts.len() - 1 {
                assert(out[i] == parts[i]);
            } else {
                let last = parts.last().push(s.last());
                assert(out[i] == last);
                if last.contains(sep) {
                    let k = choose|k: int| 0 <= k < last.len() && last[k] == sep;
                    assert(parts.last()[k] == sep);
                    assert(parts[parts.len() - 1].contains(sep));
                }
            }
        }
    } else {
        assert(split_on(s, sep)[0] =~= Seq::<char>::empty());
    }
}

/// A normal component has a segment of a normalized path.
pub open spec fn normal_component(c: ComponentView) -> bool {
    match c {
        ComponentView::Normal(seg) => seg.len() > 0 && !seg.contains('/') && seg != dot() && seg != dot_dot(),
        _ => true,
    }
}

proof fn lemma_segment_components_normal(segs: Seq<Seq<char>>)
    requires
        forall|i: int| 0 <= i < segs.len() ==> !(#[trigger] segs[i]).contains('/'),
    ensures
        forall|i: int| 0 <= i < segment_components(segs).len() ==> normal_component(#[trigger] segment_components(segs)[i]),
    decreases segs.len(),
{
    if segs.len() > 0 {
        let init = segs.drop_last();
        assert forall|i: int| 0 <= i < init.len() implies !(#[trigger] init[i]).contains('/') by {
            assert(init[i] == segs[i]);
        }
        lemma_segment_components_normal(init);
        assert(!segs[segs.len() - 1].contains('/'));
        let out = segment_components(segs);
        let rest = segment_components(init);
        assert forall|i: int| 0 <= i < out.len() implies normal_component(#[trigger] out[i]) by {
            if i < rest.len() {
                assert(out[i] == rest[i]);
            }
        }
    }
}

proof fn lemma_path_components_normal(s: Seq<char>)
    ensures
        forall|i: int| 0 <= i < path_components(s).len() ==> normal_component(#[trigger] path_components(s)[i]),
{
    let segs = split_on(s, '/');
    lemma_split_parts_no_sep(s, '/');
    lemma_segment_components_normal(segs);
    let sc = segment_components(segs);
    let pc = path_components(s);
    assert forall|i: int| 0 <= i < pc.len() implies normal_component(#[trigger] pc[i]) by {
        if is_rooted(s) || has_cur_dir(s) {
            if i > 0 {
                assert(pc[i] == sc[i - 1]);
            }
        } else {
            assert(pc[i] == sc[i]);
        }
    }
}

proof fn lemma_resolve_normal(cs: Seq<ComponentView>)
    requires
        forall|i: int| 0 <= i < cs.len() ==> normal_component(#[trigger] cs[i]),
        resolve_components(cs) is Some,
    ensures
        normal_segments(resolve_components(cs)->0),
    decreases cs.len(),
{
    if cs.len() > 0 {
        let init = cs.drop_last();
        assert forall|i: int| 0 <= i < init.len() implies normal_component(#[trigger] init[i]) by {
            assert(init[i] == cs[i]);
        }
        lemma_resolve_normal(init);
        let stack = resolve_components(init)->0;
        let out = resolve_components(cs)->0;
        assert(normal_component(cs[cs.len() - 1]));
        assert forall|i: int| 0 <= i < out.len() implies {
            &&& (#[trigger] out[i]).len() > 0
            &&& !out[i].contains('/')
            &&& out[i] != dot()
            &&& out[i] != dot_dot()
        } by {
            if i < stack.len() {
                assert(out[i] == stack[i]);
            }
        }
    }
}

proof fn lemma_join_split(s: Seq<char>, sep: char)
    ensures
        join_with(split_on(s, sep), sep) == s,
    decreases s.len(),
{
    if s.len() == 0 {
        assert(split_on(s, sep) =~= seq![Seq::<char>::empty()]);
        assert(s =~= Seq::<char>::empty());
    } else {
        let init = s.drop_last();
        lemma_join_split(init, sep);
        crate::text::lemma_split_on_nonempty(init, sep);
        let p = split_on(init, sep);
        let c = s.last();
        if c == sep {
            let q = p.push(Seq::<char>::empty());
            assert(q.drop_last() =~= p);
            assert(join_with(q, sep) == join_with(p, sep).push(sep) + Seq::<char>::empty());
            assert(join_with(p, sep).push(sep) + Seq::<char>::empty() =~= s);
        } else {
            let q = p.update(p.len() - 1, p.last().push(c));
            if p.len() == 1 {
                assert(q[0] =~= p[0].push(c));
                assert(join_with(p, sep) == p[0]);
                assert(join_with(q, sep) == q[0]);
                assert(p[0].push(c) =~= s);
            } else {
                assert(q.drop_last() =~= p.drop_last());
                assert(join_with(q, sep) == join_with(p.drop_last(), sep).push(sep) + p.last().push(c));
                assert(join_with(p, sep) == join_with(p.drop_last(), sep).push(sep) + p.last());
                assert(join_with(p.drop_last(), sep).push(sep) + p.last().push(c) =~= (join_with(p.drop_last(), sep).push(sep)
                    + p.last()).push(c));
                assert(init.push(c) =~= s);
            }
        }
    }
}

/// A normalized path is the join of normal segments, less any verbatim
/// prefix; where no prefix was removed, it is empty or its segments are
/// normal.
pub proof fn law_normalized_shape(rel: Seq<char>, q: Seq<char>)
    requires
        normalized_relative(rel) == Some(q),
    ensures
        exists|segs: Seq<Seq<char>>| #[trigger] normal_segments(segs) && q == strip_verbatim(join_segments(segs)) && (
        strip_verbatim(join_segments(segs)) == join_segments(segs) ==> (q.len() == 0 || normal_segments(split_on(q, '/')))),
{
    let cs = path_components(trim(rel));
    lemma_path_components_normal(trim(rel));
    lemma_resolve_normal(cs);
    let segs = resolve_components(cs)->0;
    if strip_verbatim(join_segments(segs)) == join_segments(segs) && segs.len() > 0 {
        lemma_split_join(segs);
    } else if segs.len() == 0 {
        assert(join_segments(segs) =~= Seq::<char>::empty());
    }
}

/// Normalizing a normalized path gives it back, and all its components
/// are normal, except where the path has something to trim at its ends,
/// begins with the verbatim prefix, or (once a verbatim prefix was
/// removed) has a segment that is empty, `.` or `..`.
pub proof fn law_normalize_twice(rel: Seq<char>, q: Seq<char>)
    requires
        normalized_relative(rel) == Some(q),
        trim(q) == q,
        strip_verbatim(q) == q,
        q.len() == 0 || normal_segments(split_on(q, '/')),
    ensures
        normalized_relative(q) == Some(q),
        forall|i: int| 0 <= i < path_components(q).len() ==> (#[trigger] path_components(q)[i]) is Normal,
{
    if q.len() == 0 {
        lemma_components_of_empty_segment();
        assert(split_on(q, '/') =~= seq![Seq::<char>::empty()]);
        assert(path_components(q) =~= Seq::<ComponentView>::empty());
        assert(join_segments(Seq::<Seq<char>>::empty()) =~= Seq::<char>::empty());
        assert(strip_verbatim(Seq::<char>::empty()) =~= Seq::<char>::empty());
    } else {
        let segs = split_on(q, '/');
        lemma_join_split(q, '/');
        law_normalized_path_is_stable(segs);
    }
}

/// Resolving a path in a workspace fails only where normalizing it fails
/// or gives a rooted path: otherwise the result is the root joined with
/// the normalized path.
pub proof fn law_resolve_fails_only_when_normalizing_fails(root: Seq<char>, rel: Seq<char>)
    ensures
        normalized_relative(rel) is Some && !is_rooted(normalized_relative(rel)->0) ==> resolved_target(root, rel) == Some(
            path_join(root, normalized_relative(rel)->0),
        ),
        normalized_relative(rel) is None ==> resolved_target(root, rel) is None,
{
    if normalized_relative(rel) is Some {
        let n = normalized_relative(rel)->0;
        if !is_rooted(n) {
            lemma_join_keeps_root(root, n);
        }
    }
}

proof fn lemma_segment_components_concat(a: Seq<Seq<char>>, b: Seq<Seq<char>>)
    ensures
        segment_components(a + b) == segment_components(a) + segment_components(b),
    decreases b.len(),
{
    if b.len() == 0 {
        assert(a + b =~= a);
        assert(segment_components(a) + segment_components(b) =~= segment_components(a));
    } else {
        lemma_segment_components_concat(a, b.drop_last());
        assert((a + b).drop_last() =~= a + b.drop_last());
        assert((a + b).last() == b.last());
        let sa = segment_components(a);
        let sb = segment_components(b.drop_last());
        assert((sa + sb).push(segment_component(b.last())) =~= sa + sb.push(segment_component(b.last())));
    }
}

proof fn lemma_components_of_empty_segment()
    ensures
        segment_components(seq![Seq::<char>::empty()]) == Seq::<ComponentView>::empty(),
{
    let one = seq![Seq::<char>::empty()];
    assert(one.drop_last() =~= Seq::<Seq<char>>::empty());
    assert(one.last().len() == 0);
    assert(segment_components(one.drop_last()) =~= Seq::<ComponentView>::empty());
}

proof fn lemma_join_keeps_root(root: Seq<char>, n: Seq<char>)
    requires
        !is_rooted(n),
    ensures
        path_starts_with(path_join(root, n), root),
{
    let joined = path_join(root, n);
    let b = path_components(root);
    if root.len() == 0 {
        assert(split_on(root, '/') =~= seq![Seq::<char>::empty()]);
        lemma_components_of_empty_segment();
        assert(b =~= Seq::<ComponentView>::empty());
        assert(path_components(joined).take(0) =~= b);
    } else {
        let base = if root.last() == '/' { root.drop_last() } else { root };
        assert(joined =~= base + seq!['/'] + n) by {
            if root.last() == '/' {
                assert(root =~= root.drop_last().push('/'));
            }
        }
        lemma_split_concat(base, n, '/');
        let sb = split_on(base, '/');
        let sn = split_on(n, '/');
        lemma_segment_components_concat(sb, sn);
        assert(segment_components(split_on(root, '/')) == segment_components(sb)) by {
            if root.last() == '/' {
                assert(root =~= base + seq!['/'] + Seq::<char>::empty());
                lemma_split_concat(base, Seq::<char>::empty(), '/');
                assert(split_on(Seq::<char>::empty(), '/') =~= seq![Seq::<char>::empty()]);
                lemma_segment_components_concat(sb, seq![Seq::<char>::empty()]);
                lemma_components_of_empty_segment();
                assert(segment_components(sb) + Seq::<ComponentView>::empty() =~= segment_components(sb));
            }
        }
        assert(joined[0] == root[0]);
        assert(root.len() >= 2 ==> joined[1] == root[1]);
        assert(root.len() == 1 && root.last() != '/' ==> joined[1] == '/');
        assert(is_rooted(joined) == is_rooted(root));
        assert(has_cur_dir(joined) == has_cur_dir(root));
        let head = if is_rooted(root) {
            seq![ComponentView::RootDir]
        } else if has_cur_dir(root) {
            seq![ComponentView::CurDir]
        } else {
            Seq::<ComponentView>::empty()
        };
        assert(b =~= head + segment_components(sb));
        assert(path_components(joined) =~= head + segment_components(sb) + segment_components(sn));
        assert(path_components(joined).take(b.len() as int) =~= b);
    }
}

/// Sanitizing a sanitized segment gives it back, wherever lower-casing
/// leaves the segment as it is (the segment holds no upper-case letter).
pub proof fn law_sanitize_segment_stable(input: Seq<char>)
    requires
        spec_to_lowercase(sanitized(spec_to_lowercase(trim(input)))) == sanitized(spec_to_lowercase(trim(input))),
    ensures
        sanitized(spec_to_lowercase(trim(sanitized(spec_to_lowercase(trim(input)))))) == sanitized(spec_to_lowercase(trim(input))),
{
    let r = sanitized(spec_to_lowercase(trim(input)));
    law_sanitized_shape(spec_to_lowercase(trim(input)));
    assert(!crate::text::is_white(r[0]));
    assert(!crate::text::is_white(r.last()));
    assert(crate::text::trim_start(r) == r);
    assert(trim(r) == r);
}

/// Sanitizes a label and checks that lower-casing leaves the result as it
/// is; then sanitizing the result again gives it back. Nothing when
/// lower-casing would change it.
pub fn sanitize_segment_stable(input: &str) -> (r: Option<String>)
    ensures
        match r {
            Some(s) => s@ == sanitized(spec_to_lowercase(trim(input@))) && sanitized(spec_to_lowercase(trim(s@))) == s@,
            None => spec_to_lowercase(sanitized(spec_to_lowercase(trim(input@)))) != sanitized(spec_to_lowercase(trim(input@))),
        },
{
    let s = sanitize_segment(input);
    let lower = to_lowercase(s.as_str());
    if str_eq(lower.as_str(), s.as_str()) {
        proof {
            law_sanitize_segment_stable(input@);
        }
        Some(s)
    } else {
        None
    }
}

} // verus!
