//! Project names, the on-disk project library and per-project history.

use vstd::prelude::*;
use vstd::string::*;
use crate::text::{
    push_char, char_is_control, is_control, is_text_less, lemma_text_less_asymmetric,
    lemma_text_less_transitive, lemma_trim_idempotent, text_less, to_lowercase, trim,
    trim_white_space, unicode_lowercase,
};

verus! {

/// Why a project name was refused.
#[derive(Clone, Copy, Debug, PartialEq, Eq, Structural)]
pub enum ProjectNameError {
    /// Nothing is left once surrounding white space is removed.
    Empty,
    /// A character that no file name may hold, or a trailing dot or space.
    UnusableCharacters,
    /// A device name that Windows reserves.
    Reserved,
}

impl ProjectNameError {
    pub open spec fn spec_message(self) -> Seq<char> {
        match self {
            ProjectNameError::Empty => "project name cannot be empty"@,
            ProjectNameError::UnusableCharacters =>
                "project name contains characters that cannot be used in a file name"@,
            ProjectNameError::Reserved => "project name is reserved by Windows"@,
        }
    }

    /// The text the server reports for this refusal.
    pub fn message(&self) -> (r: String)
        ensures
            r@ == self.spec_message(),
    {
        match self {
            ProjectNameError::Empty => String::from_str("project name cannot be empty"),
            ProjectNameError::UnusableCharacters => String::from_str(
                "project name contains characters that cannot be used in a file name",
            ),
            ProjectNameError::Reserved => String::from_str("project name is reserved by Windows"),
        }
    }
}

/// Characters that Windows refuses in file names.
pub open spec fn is_reserved_punctuation(c: char) -> bool {
    c == '<' || c == '>' || c == ':' || c == '"' || c == '/' || c == '\\' || c == '|' || c == '?'
        || c == '*'
}

pub open spec fn is_unusable_in_file_name(c: char) -> bool {
    is_control(c) || is_reserved_punctuation(c)
}

pub open spec fn has_unusable_char(s: Seq<char>) -> bool {
    exists|i: int| 0 <= i < s.len() && is_unusable_in_file_name(#[trigger] s[i])
}

pub open spec fn ends_with_dot_or_space(s: Seq<char>) -> bool {
    s.len() > 0 && (s.last() == '.' || s.last() == ' ')
}

/// `k` is the position of the first `.` in `s`.
pub open spec fn is_first_dot(s: Seq<char>, k: int) -> bool {
    &&& 0 <= k < s.len()
    &&& s[k] == '.'
    &&& forall|j: int| 0 <= j < k ==> s[j] != '.'
}

/// The text before the first `.`, or all of it when there is none.
pub open spec fn first_segment(s: Seq<char>) -> Seq<char> {
    if exists|k: int| is_first_dot(s, k) {
        s.take(choose|k: int| is_first_dot(s, k))
    } else {
        s
    }
}

/// The code of a character once ASCII letters are upper-cased.
pub open spec fn upper_code(c: char) -> int {
    if 97 <= (c as u32) && (c as u32) <= 122 {
        (c as u32) - 32
    } else {
        c as u32 as int
    }
}

/// `s`, upper-cased in ASCII, is `word`.
pub open spec fn upper_equals(s: Seq<char>, word: Seq<char>) -> bool {
    s.len() == word.len() && forall|i: int| 0 <= i < s.len() ==> upper_code(s[i]) == word[i] as u32
}

/// `CON`, `PRN`, `AUX`, `NUL`, `COM1`..`COM9`, `LPT1`..`LPT9`, in any ASCII case.
pub open spec fn is_reserved_device_name(stem: Seq<char>) -> bool {
    ||| upper_equals(stem, seq!['C', 'O', 'N'])
    ||| upper_equals(stem, seq!['P', 'R', 'N'])
    ||| upper_equals(stem, seq!['A', 'U', 'X'])
    ||| upper_equals(stem, seq!['N', 'U', 'L'])
    ||| stem.len() == 4 && (upper_equals(stem.take(3), seq!['C', 'O', 'M']) || upper_equals(
        stem.take(3),
        seq!['L', 'P', 'T'],
    )) && '1' <= stem[3] && stem[3] <= '9'
}

/// What validating `name` gives: the trimmed name, or why it is refused.
pub open spec fn name_validation(name: Seq<char>) -> Result<Seq<char>, ProjectNameError> {
    let t = trim(name);
    if t.len() == 0 {
        Err(ProjectNameError::Empty)
    } else if ends_with_dot_or_space(t) || has_unusable_char(t) {
        Err(ProjectNameError::UnusableCharacters)
    } else if is_reserved_device_name(first_segment(t)) {
        Err(ProjectNameError::Reserved)
    } else {
        Ok(t)
    }
}

fn upper_code_of(c: char) -> (r: u32)
    ensures
        r == upper_code(c),
{
    let u = c as u32;
    if 97 <= u && u <= 122 {
        u - 32
    } else {
        u
    }
}

fn char_is_reserved_punctuation(c: char) -> (r: bool)
    ensures
        r == is_reserved_punctuation(c),
{
    c == '<' || c == '>' || c == ':' || c == '"' || c == '/' || c == '\\' || c == '|' || c == '?'
        || c == '*'
}

/// Whether the first `k` characters of `t` name a reserved device.
fn is_reserved_stem(t: &str, k: usize) -> (r: bool)
    requires
        k <= t@.len(),
    ensures
        r == is_reserved_device_name(t@.take(k as int)),
{
    let ghost stem = t@.take(k as int);
    if k == 3 {
        let a = upper_code_of(t.get_char(0));
        let b = upper_code_of(t.get_char(1));
        let c = upper_code_of(t.get_char(2));
        let r = (a == 67 && b == 79 && c == 78) || (a == 80 && b == 82 && c == 78) || (a == 65 && b
            == 85 && c == 88) || (a == 78 && b == 85 && c == 76);
        assert(stem.take(3).len() == 3);
        assert(r == is_reserved_device_name(stem)) by {
            assert(upper_code(stem[0]) == a && upper_code(stem[1]) == b && upper_code(stem[2])
                == c);
        }
        r
    } else if k == 4 {
        let a = upper_code_of(t.get_char(0));
        let b = upper_code_of(t.get_char(1));
        let c = upper_code_of(t.get_char(2));
        let d = t.get_char(3);
        let r = ((a == 67 && b == 79 && c == 77) || (a == 76 && b == 80 && c == 84)) && '1' <= d
            && d <= '9';
        assert(r == is_reserved_device_name(stem)) by {
            assert(upper_code(stem[0]) == a && upper_code(stem[1]) == b && upper_code(stem[2])
                == c);
            assert(stem.take(3)[0] == stem[0] && stem.take(3)[1] == stem[1] && stem.take(3)[2]
                == stem[2]);
        }
        r
    } else {
        false
    }
}

/// Checks that `name`, once trimmed, can serve as a project (directory) name
/// on every platform, and returns the trimmed name.
pub fn validate_project_name(name: &str) -> (r: Result<String, ProjectNameError>)
    ensures
        match r {
            Ok(v) => name_validation(name@) == Ok::<Seq<char>, ProjectNameError>(v@),
            Err(e) => name_validation(name@) == Err::<Seq<char>, ProjectNameError>(e),
        },
{
    let t = trim_white_space(name);
    let n = t.unicode_len();
    if n == 0 {
        return Err(ProjectNameError::Empty);
    }
    let last = t.get_char(n - 1);
    if last == '.' || last == ' ' {
        return Err(ProjectNameError::UnusableCharacters);
    }
    let mut i: usize = 0;
    while i < n
        invariant
            n == t@.len(),
            n > 0,
            t@ == trim(name@),
            i <= n,
            forall|j: int| 0 <= j < i ==> !is_unusable_in_file_name(#[trigger] t@[j]),
        decreases n - i,
    {
        let c = t.get_char(i);
        if char_is_control(c) || char_is_reserved_punctuation(c) {
            assert(is_unusable_in_file_name(t@[i as int]));
            return Err(ProjectNameError::UnusableCharacters);
        }
        i = i + 1;
    }
    let mut k: usize = 0;
    while k < n && t.get_char(k) != '.'
        invariant
            n == t@.len(),
            k <= n,
            forall|j: int| 0 <= j < k ==> t@[j] != '.',
        decreases n - k,
    {
        k = k + 1;
    }
    proof {
        if k < n {
            assert(is_first_dot(t@, k as int));
            assert forall|k2: int| is_first_dot(t@, k2) implies k2 == k by {
                if k2 < k {
                    assert(t@[k2] != '.');
                } else if k2 > k {
                    assert(t@[k as int] != '.');
                }
            }
            assert(first_segment(t@) == t@.take(k as int));
        } else {
            assert(t@.take(k as int) =~= t@);
            assert(!exists|k2: int| is_first_dot(t@, k2));
        }
    }
    if is_reserved_stem(t, k) {
        return Err(ProjectNameError::Reserved);
    }
    Ok(t.to_owned())
}

/// The extension that marks a project directory.
pub open spec fn project_extension() -> Seq<char> {
    seq!['k', 'h', 'r', 'p', 'r', 'o', 'j']
}

/// `<root>/<name>.khrproj`: where the project `name` lives under `root`
/// (no separator is added after an empty root or one that ends with `/`).
pub open spec fn project_path(root: Seq<char>, name: Seq<char>) -> Seq<char> {
    let file = name + seq!['.'] + project_extension();
    if root.len() == 0 || root.last() == '/' {
        root + file
    } else {
        root + seq!['/'] + file
    }
}

/// `k` is the position of the last `.` in `s`.
pub open spec fn is_last_dot(s: Seq<char>, k: int) -> bool {
    &&& 0 <= k < s.len()
    &&& s[k] == '.'
    &&& forall|j: int| k < j < s.len() ==> s[j] != '.'
}

/// A file name split into stem and extension as `Path::file_stem` and
/// `Path::extension` split it: at the last dot, unless that dot starts the
/// name (or the name is `..`).
pub open spec fn stem_and_extension(s: Seq<char>) -> (Seq<char>, Option<Seq<char>>) {
    if s == seq!['.', '.'] {
        (s, None)
    } else if exists|k: int| is_last_dot(s, k) {
        let k = choose|k: int| is_last_dot(s, k);
        if k == 0 {
            (s, None)
        } else {
            (s.take(k), Some(s.skip(k + 1)))
        }
    } else {
        (s, None)
    }
}

/// The code of a character once ASCII letters are lower-cased.
pub open spec fn lower_code(c: char) -> int {
    if 65 <= (c as u32) && (c as u32) <= 90 {
        (c as u32) + 32
    } else {
        c as u32 as int
    }
}

/// `a` and `b` are equal up to ASCII case (`eq_ignore_ascii_case`).
pub open spec fn ascii_eq_ignore_case(a: Seq<char>, b: Seq<char>) -> bool {
    a.len() == b.len() && forall|i: int| 0 <= i < a.len() ==> lower_code(a[i]) == lower_code(b[i])
}

/// One project, as listed.
pub struct ProjectSummary {
    pub name: String,
}

/// What the listing learns of one directory entry under the library root.
pub struct LibraryEntry {
    /// The entry's file name.
    pub file_name: String,
    /// The entry is a directory.
    pub is_dir: bool,
    /// The directory holds `state-a.khr` or `state-b.khr` as a file.
    pub has_state_file: bool,
}

/// The entry is a project: a directory named `<stem>.khrproj` (extension in
/// any ASCII case) that holds a state file.
pub open spec fn is_project_entry(e: LibraryEntry) -> bool {
    &&& e.is_dir
    &&& e.has_state_file
    &&& match stem_and_extension(e.file_name@).1 {
        Some(x) => ascii_eq_ignore_case(x, project_extension()),
        None => false,
    }
}

/// The names of the projects among `entries`, in entry order.
pub open spec fn project_names(entries: Seq<LibraryEntry>) -> Seq<Seq<char>>
    decreases entries.len(),
{
    if entries.len() == 0 {
        seq![]
    } else {
        let rest = project_names(entries.drop_last());
        if is_project_entry(entries.last()) {
            rest.push(stem_and_extension(entries.last().file_name@).0)
        } else {
            rest
        }
    }
}

pub open spec fn summary_names(s: Seq<ProjectSummary>) -> Seq<Seq<char>> {
    s.map_values(|p: ProjectSummary| p.name@)
}

/// Summaries in order of their lower-cased names.
pub open spec fn sorted_by_lowercase(s: Seq<ProjectSummary>) -> bool {
    forall|i: int, j: int|
        0 <= i < j < s.len() ==> !text_less(
            unicode_lowercase(#[trigger] s[j].name@),
            unicode_lowercase(#[trigger] s[i].name@),
        )
}

/// Splits a file name into stem and extension (see `stem_and_extension`).
pub fn split_file_name(name: &str) -> (r: (&str, Option<&str>))
    ensures
        r.0@ == stem_and_extension(name@).0,
        match r.1 {
            Some(x) => stem_and_extension(name@).1 == Some(x@),
            None => stem_and_extension(name@).1 is None,
        },
{
    let n = name.unicode_len();
    if n == 2 && name.get_char(0) == '.' && name.get_char(1) == '.' {
        assert(name@ =~= seq!['.', '.']);
        return (name, None);
    }
    let ghost dd = seq!['.', '.'];
    assert(name@ != dd) by {
        if name@ == dd {
            assert(name@[0] == '.' && name@[1] == '.');
        }
    }
    let mut k: usize = n;
    while k > 0 && name.get_char(k - 1) != '.'
        invariant
            n == name@.len(),
            k <= n,
            forall|j: int| k <= j < n ==> name@[j] != '.',
        decreases k,
    {
        k = k - 1;
    }
    if k == 0 {
        assert(!exists|d: int| is_last_dot(name@, d));
        return (name, None);
    }
    let d = k - 1;
    assert(is_last_dot(name@, d as int));
    assert forall|d2: int| is_last_dot(name@, d2) implies d2 == d by {
        if d2 < d {
            assert(name@[d as int] != '.');
        } else if d2 > d {
            assert(name@[d2] != '.');
        }
    }
    if d == 0 {
        return (name, None);
    }
    assert(name@.take(d as int) =~= name@.subrange(0, d as int));
    assert(name@.skip(d + 1) =~= name@.subrange(d + 1, n as int));
    (name.substring_char(0, d), Some(name.substring_char(k, n)))
}

fn lower_code_of(c: char) -> (r: u32)
    ensures
        r == lower_code(c),
{
    let u = c as u32;
    if 65 <= u && u <= 90 {
        u + 32
    } else {
        u
    }
}

/// Whether `x` is `khrproj` up to ASCII case.
fn is_project_extension(x: &str) -> (r: bool)
    ensures
        r == ascii_eq_ignore_case(x@, project_extension()),
{
    if x.unicode_len() != 7 {
        return false;
    }
    let codes = [107u32, 104, 114, 112, 114, 111, 106];
    let mut i: usize = 0;
    while i < 7
        invariant
            x@.len() == 7,
            i <= 7,
            codes@ == seq![107u32, 104, 114, 112, 114, 111, 106],
            forall|j: int| 0 <= j < i ==> lower_code(x@[j]) == lower_code(project_extension()[j]),
        decreases 7 - i,
    {
        if lower_code_of(x.get_char(i)) != codes[i] {
            return false;
        }
        i = i + 1;
    }
    true
}

/// Inserting into a sequence adds one occurrence to its multiset.
pub proof fn lemma_insert_to_multiset<A>(s: Seq<A>, pos: int, x: A)
    requires
        0 <= pos <= s.len(),
    ensures
        s.insert(pos, x).to_multiset() =~= s.to_multiset().insert(x),
{
    let t = s.insert(pos, x);
    assert(t.remove(pos) =~= s);
    t.to_multiset_ensures();
    assert(t.contains(x)) by {
        assert(t[pos] == x);
    }
    assert(s.to_multiset() =~= t.to_multiset().remove(x));
}

/// Inserts `item` after every summary whose lower-cased name does not
/// follow its own.
fn insert_by_lowercase_name(v: &mut Vec<ProjectSummary>, item: ProjectSummary)
    requires
        sorted_by_lowercase(old(v)@),
    ensures
        sorted_by_lowercase(final(v)@),
        summary_names(final(v)@).to_multiset() =~= summary_names(old(v)@).to_multiset().insert(
            item.name@,
        ),
{
    let key = to_lowercase(item.name.as_str());
    let mut pos: usize = 0;
    while pos < v.len() && !is_text_less(key.as_str(), to_lowercase(v[pos].name.as_str()).as_str())
        invariant
            pos <= v.len(),
            key@ == unicode_lowercase(item.name@),
            forall|i: int|
                0 <= i < pos ==> !text_less(key@, unicode_lowercase(#[trigger] v@[i].name@)),
        decreases v.len() - pos,
    {
        pos = pos + 1;
    }
    let ghost before = v@;
    let ghost item_name = item.name@;
    v.insert(pos, item);
    proof {
        let w = v@;
        let p = pos as int;
        before.insert_ensures(p, w[p]);
        assert forall|i: int, j: int| 0 <= i < j < w.len() implies !text_less(
            unicode_lowercase(#[trigger] w[j].name@),
            unicode_lowercase(#[trigger] w[i].name@),
        ) by {
            let ki = unicode_lowercase(w[i].name@);
            let kj = unicode_lowercase(w[j].name@);
            if j < p {
                assert(w[i] == before[i] && w[j] == before[j]);
            } else if j == p {
                assert(w[i] == before[i]);
            } else if i > p {
                assert(w[i] == before[i - 1] && w[j] == before[j - 1]);
            } else if i == p {
                let kp = unicode_lowercase(before[p].name@);
                assert(w[j] == before[j - 1]);
                assert(text_less(key@, kp));
                if j - 1 > p {
                    assert(!text_less(kj, kp));
                }
                lemma_text_less_transitive(kj, key@, kp);
                lemma_text_less_asymmetric(kj, kp);
            } else {
                let kp = unicode_lowercase(before[p].name@);
                assert(w[i] == before[i] && w[j] == before[j - 1]);
                assert(!text_less(key@, ki));
            }
        }
        assert(summary_names(w) =~= summary_names(before).insert(p, item_name));
        lemma_insert_to_multiset(summary_names(before), p, item_name);
    }
}

/// A managed directory tree of projects rooted at a configurable path.
pub struct ProjectLibrary {
    root: String,
}

impl View for ProjectLibrary {
    type V = Seq<char>;

    closed spec fn view(&self) -> Seq<char> {
        self.root@
    }
}

impl ProjectLibrary {
    /// A library rooted at `root` (a directory that already exists).
    pub fn new(root: String) -> (r: ProjectLibrary)
        ensures
            r@ == root@,
    {
        ProjectLibrary { root }
    }

    /// The projects among the root's entries, ordered by lower-cased name
    /// (entries whose names compare equal come in no promised order).
    pub fn list(&self, entries: Vec<LibraryEntry>) -> (r: Vec<ProjectSummary>)
        ensures
            summary_names(r@).to_multiset() =~= project_names(entries@).to_multiset(),
            sorted_by_lowercase(r@),
    {
        let mut result: Vec<ProjectSummary> = Vec::new();
        let n = entries.len();
        let mut i: usize = 0;
        assert(entries@.take(0) =~= Seq::<LibraryEntry>::empty());
        assert(summary_names(result@) =~= Seq::<Seq<char>>::empty());
        while i < n
            invariant
                n == entries@.len(),
                i <= n,
                sorted_by_lowercase(result@),
                summary_names(result@).to_multiset() =~= project_names(
                    entries@.take(i as int),
                ).to_multiset(),
            decreases n - i,
        {
            let entry = &entries[i];
            assert(entries@.take(i + 1).drop_last() =~= entries@.take(i as int));
            let ghost names_before = project_names(entries@.take(i as int));
            if entry.is_dir && entry.has_state_file {
                let (stem, extension) = split_file_name(entry.file_name.as_str());
                let is_project = match extension {
                    Some(x) => is_project_extension(x),
                    None => false,
                };
                if is_project {
                    insert_by_lowercase_name(&mut result, ProjectSummary { name: stem.to_owned() });
                    proof {
                        names_before.to_multiset_ensures();
                    }
                }
            }
            i = i + 1;
        }
        assert(entries@.take(n as int) =~= entries@);
        result
    }

    /// The validated name of project `name` and the path of its directory.
    pub fn resolve(&self, name: &str) -> (r: Result<(String, String), ProjectNameError>)
        ensures
            match r {
                Ok((valid, path)) => {
                    &&& name_validation(name@) == Ok::<Seq<char>, ProjectNameError>(valid@)
                    &&& path@ == project_path(self@, valid@)
                },
                Err(e) => name_validation(name@) == Err::<Seq<char>, ProjectNameError>(e),
            },
    {
        let valid = validate_project_name(name)?;
        let mut path = self.root.clone();
        let n = path.as_str().unicode_len();
        if n > 0 && path.as_str().get_char(n - 1) != '/' {
            push_char(&mut path, '/');
        }
        path.append(valid.as_str());
        push_char(&mut path, '.');
        let suffix = ['k', 'h', 'r', 'p', 'r', 'o', 'j'];
        let mut i: usize = 0;
        let ghost base = path@;
        while i < 7
            invariant
                i <= 7,
                suffix@ == project_extension(),
                path@ == base + project_extension().take(i as int),
            decreases 7 - i,
        {
            push_char(&mut path, suffix[i]);
            assert(project_extension().take(i + 1) =~= project_extension().take(i as int).push(
                suffix@[i as int],
            ));
            i = i + 1;
        }
        assert(project_extension().take(7) =~= project_extension());
        proof {
            let file = valid@ + seq!['.'] + project_extension();
            if n > 0 && self@.last() != '/' {
                assert(path@ =~= self@ + seq!['/'] + file);
            } else {
                assert(path@ =~= self@ + file);
            }
        }
        Ok((valid, path))
    }
}

/// The first page of a project, which a freshly opened project selects.
pub open spec fn first_page<P>(page_ids: Seq<P>) -> Option<P> {
    if page_ids.len() > 0 {
        Some(page_ids[0])
    } else {
        None
    }
}

fn first_page_of<P: Copy>(page_ids: &Vec<P>) -> (r: Option<P>)
    ensures
        r == first_page(page_ids@),
{
    if page_ids.len() > 0 {
        Some(page_ids[0])
    } else {
        None
    }
}

/// One open project: its name, the selected page and the undo/redo history
/// of scene revisions (`P` names pages, `R` revisions). The scene session
/// itself is held beside it.
pub struct Project<P, R> {
    pub name: String,
    pub active_page: Option<P>,
    pub undo: Vec<Vec<R>>,
    pub redo: Vec<Vec<R>>,
}

impl<P: Copy, R> Project<P, R> {
    /// A project just opened or created, whose scene holds `page_ids` in
    /// page order: the first page is selected and the history is empty.
    pub fn new(name: String, page_ids: &Vec<P>) -> (r: Project<P, R>)
        ensures
            r.name == name,
            r.active_page == first_page(page_ids@),
            r.undo@.len() == 0,
            r.redo@.len() == 0,
    {
        Project { name, active_page: first_page_of(page_ids), undo: Vec::new(), redo: Vec::new() }
    }

    /// Records one user step made of `revisions`: a non-empty step goes on
    /// the undo stack and clears the redo stack; an empty one changes nothing.
    pub fn record(&mut self, revisions: Vec<R>)
        ensures
            final(self).name == old(self).name,
            final(self).active_page == old(self).active_page,
            revisions@.len() == 0 ==> final(self).undo@ == old(self).undo@ && final(self).redo@
                == old(self).redo@,
            revisions@.len() > 0 ==> final(self).undo@ == old(self).undo@.push(revisions)
                && final(self).redo@.len() == 0,
    {
        if revisions.len() > 0 {
            self.undo.push(revisions);
            self.redo.clear();
        }
    }

    /// After pages were imported in one commit at `revision`: the commit is
    /// one undo step and the first page of the scene is selected.
    pub fn after_import(&mut self, revision: R, page_ids: &Vec<P>)
        ensures
            final(self).name == old(self).name,
            final(self).active_page == first_page(page_ids@),
            final(self).undo@.len() == old(self).undo@.len() + 1,
            final(self).undo@.last()@ == seq![revision],
            final(self).undo@.drop_last() == old(self).undo@,
            final(self).redo@.len() == 0,
    {
        let mut step: Vec<R> = Vec::new();
        step.push(revision);
        self.record(step);
        self.active_page = first_page_of(page_ids);
        proof {
            assert(self.undo@.drop_last() =~= old(self).undo@);
        }
    }
}

/// A project created under an accepted name is listed again under that
/// name: its directory name splits into the name and the project extension.
pub proof fn lemma_created_project_is_listed(root: Seq<char>, name: Seq<char>)
    requires
        name_validation(name) is Ok,
    ensures
        ({
            let valid = name_validation(name)->Ok_0;
            let file = valid + seq!['.'] + project_extension();
            &&& project_path(root, valid) =~= project_path(root, valid).take(
                project_path(root, valid).len() - file.len(),
            ) + file
            &&& stem_and_extension(file) == (valid, Some(project_extension()))
            &&& ascii_eq_ignore_case(project_extension(), project_extension())
        }),
{
    let valid = name_validation(name)->Ok_0;
    let file = valid + seq!['.'] + project_extension();
    let k = valid.len() as int;
    assert(valid.len() > 0);
    assert(is_last_dot(file, k));
    assert forall|k2: int| is_last_dot(file, k2) implies k2 == k by {
        if k2 > k {
            assert(file[k2] == project_extension()[k2 - k - 1]);
        } else if k2 < k {
            assert(file[k] == '.');
        }
    }
    assert(file.take(k) =~= valid);
    assert(file.skip(k + 1) =~= project_extension());
    assert(file != seq!['.', '.']) by {
        assert(file.len() >= 9);
    }
    let p = project_path(root, valid);
    assert(p =~= p.take(p.len() - file.len()) + file);
}

/// A name that validation accepts is accepted again, unchanged: validating
/// is idempotent.
pub proof fn lemma_validated_name_is_stable(name: Seq<char>)
    requires
        name_validation(name) is Ok,
    ensures
        name_validation(name_validation(name)->Ok_0) == name_validation(name),
{
    lemma_trim_idempotent(name);
}

/// A name that validation accepts holds no path separator, so the project
/// path stays directly under the library root.
pub proof fn lemma_validated_name_has_no_separator(name: Seq<char>)
    requires
        name_validation(name) is Ok,
    ensures
        forall|i: int|
            0 <= i < name_validation(name)->Ok_0.len() ==> {
                let c = #[trigger] name_validation(name)->Ok_0[i];
                c != '/' && c != '\\'
            },
{
    let t = name_validation(name)->Ok_0;
    assert forall|i: int| 0 <= i < t.len() implies #[trigger] t[i] != '/' && t[i] != '\\' by {
        if t[i] == '/' || t[i] == '\\' {
            assert(is_unusable_in_file_name(t[i]));
        }
    }
}

/// The directory name of a project: its name, a dot, and the extension.
pub open spec fn project_dir_name(name: Seq<char>) -> Seq<char> {
    name + seq!['.'] + project_extension()
}

/// Listing finds every project under the name it was created with: for any
/// name that validation accepts (dots inside it included, as in `Vol.1`), a
/// directory `<name>.khrproj` holding a state file adds exactly that name
/// after the names of the entries before it.
pub proof fn lemma_project_dir_lists_its_name(
    name: Seq<char>,
    entries: Seq<LibraryEntry>,
    e: LibraryEntry,
)
    requires
        name_validation(name) is Ok,
        e.file_name@ == project_dir_name(name_validation(name)->Ok_0),
        e.is_dir,
        e.has_state_file,
    ensures
        project_names(entries.push(e)) == project_names(entries).push(name_validation(name)->Ok_0),
        project_names(seq![e]) == seq![name_validation(name)->Ok_0],
{
    let v = name_validation(name)->Ok_0;
    let s = e.file_name@;
    let k = v.len() as int;
    assert(v.len() > 0);
    assert(s[k] == '.');
    assert forall|j: int| k < j < s.len() implies s[j] != '.' by {
        assert(s[j] == project_extension()[j - k - 1]);
    }
    assert(is_last_dot(s, k));
    let k2 = choose|k2: int| is_last_dot(s, k2);
    if k2 < k {
        assert(s[k] != '.');
    }
    if k2 > k {
        assert(s[k2] == project_extension()[k2 - k - 1]);
    }
    assert(k2 == k);
    assert(s != seq!['.', '.']) by {
        assert(s.len() > 2);
    }
    assert(s.take(k) =~= v);
    assert(s.skip(k + 1) =~= project_extension());
    assert(stem_and_extension(s) == (v, Some(project_extension())));
    assert(ascii_eq_ignore_case(project_extension(), project_extension()));
    assert(is_project_entry(e));
    assert(entries.push(e).drop_last() =~= entries);
    assert(seq![e] =~= Seq::<LibraryEntry>::empty().push(e));
    assert(Seq::<LibraryEntry>::empty().push(e).drop_last() =~= Seq::<LibraryEntry>::empty());
    assert(project_names(Seq::<LibraryEntry>::empty()) =~= Seq::<Seq<char>>::empty());
    assert(project_names(seq![e]) =~= seq![v]);
}

} // verus!
