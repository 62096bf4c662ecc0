//! Paths as the receiver sees them: strings of bytes with `/` between their
//! components. A path from the wire is confined to the sync root before
//! anything is done with it.

use vstd::prelude::*;
use vstd::slice::{slice_subrange, slice_to_vec};
use vstd::string::StringExecFns;
use vstd::utf8::encode_utf8;

verus! {

/// The byte that separates the components of a path.
pub const SEPARATOR: u8 = 0x2f;

/// The byte of a dot.
pub const DOT: u8 = 0x2e;

/// One component of a path.
#[derive(Debug, Clone, PartialEq, Eq)]
pub enum Component {
    /// The root: the path starts with a separator.
    RootDir,
    /// A leading `.`.
    CurDir,
    /// `..`.
    ParentDir,
    /// A name.
    Normal(Vec<u8>),
}

/// A `Component` as a mathematical value.
pub ghost enum Part {
    RootDir,
    CurDir,
    ParentDir,
    Normal(Seq<u8>),
}

impl View for Component {
    type V = Part;

    open spec fn view(&self) -> Part {
        match *self {
            Component::RootDir => Part::RootDir,
            Component::CurDir => Part::CurDir,
            Component::ParentDir => Part::ParentDir,
            Component::Normal(name) => Part::Normal(name@),
        }
    }
}

/// The views of a list of components.
pub open spec fn part_views(components: Seq<Component>) -> Seq<Part> {
    components.map_values(|c: Component| c@)
}

/// Whether a path is absolute: it starts with a separator.
pub open spec fn is_absolute(path: Seq<u8>) -> bool {
    path.len() > 0 && path[0] == SEPARATOR
}

/// Where the first separator of `path` stands; the length of `path` where
/// it has none.
pub open spec fn first_separator(path: Seq<u8>) -> int
    decreases path.len(),
{
    if path.len() == 0 || path[0] == SEPARATOR {
        0
    } else {
        1 + first_separator(path.skip(1))
    }
}

/// The component that the bytes between two separators make, if any:
/// nothing between them makes none, and neither does a `.` unless the path
/// starts with it.
pub open spec fn segment_part(segment: Seq<u8>, leading: bool) -> Option<Part> {
    if segment.len() == 0 {
        None
    } else if segment == seq![DOT] {
        if leading {
            Some(Part::CurDir)
        } else {
            None
        }
    } else if segment == seq![DOT, DOT] {
        Some(Part::ParentDir)
    } else {
        Some(Part::Normal(segment))
    }
}

/// The components of what follows the root in a path, segment by segment.
/// `leading` says whether `path` is a whole relative path, so that a `.`
/// in front counts.
pub open spec fn segment_parts(path: Seq<u8>, leading: bool) -> Seq<Part>
    decreases path.len(),
{
    let n = first_separator(path);
    let rest = if 0 <= n < path.len() {
        segment_parts(path.skip(n + 1), false)
    } else {
        Seq::empty()
    };
    match segment_part(path.take(n), leading) {
        Some(part) => seq![part] + rest,
        None => rest,
    }
}

/// The components of a path: the root, if the path is absolute, and then
/// what stands between the separators. Repeated separators and a separator
/// at the end count for nothing, and a `.` counts only in front.
pub open spec fn components_of(path: Seq<u8>) -> Seq<Part> {
    if is_absolute(path) {
        seq![Part::RootDir] + segment_parts(path, false)
    } else {
        segment_parts(path, true)
    }
}

/// A path in normal form with one more component dealt with: `..` takes
/// the last name away, if there is one; `.` changes nothing; the root and
/// a name are put behind.
pub open spec fn fold_part(stack: Seq<Part>, part: Part) -> Seq<Part> {
    match part {
        Part::ParentDir => if stack.len() > 0 && stack.last() is Normal {
            stack.drop_last()
        } else {
            stack
        },
        Part::CurDir => stack,
        _ => stack.push(part),
    }
}

/// The normal form of a list of components: `.` and `..` are folded away,
/// without a look at the file system.
pub open spec fn normal_form(parts: Seq<Part>) -> Seq<Part>
    decreases parts.len(),
{
    if parts.len() == 0 {
        Seq::empty()
    } else {
        fold_part(normal_form(parts.drop_last()), parts.last())
    }
}

/// Whether the components of `prefix` are the first components of `path`.
pub open spec fn starts_with(path: Seq<Part>, prefix: Seq<Part>) -> bool {
    prefix.len() <= path.len() && path.take(prefix.len() as int) == prefix
}

/// A relative path joined to a base: the base, a separator unless the base
/// is empty or ends with one, and the path.
pub open spec fn join(base: Seq<u8>, relative: Seq<u8>) -> Seq<u8> {
    if base.len() == 0 || base.last() == SEPARATOR {
        base + relative
    } else {
        base + seq![SEPARATOR] + relative
    }
}

/// Where the first separator stands, found by looking: no byte before `n`
/// is a separator, and `n` is the end or a separator.
proof fn lemma_first_separator(path: Seq<u8>, n: int)
    requires
        0 <= n <= path.len(),
        forall|j: int| 0 <= j < n ==> path[j] != SEPARATOR,
        n == path.len() || path[n] == SEPARATOR,
    ensures
        first_separator(path) == n,
    decreases n,
{
    if n > 0 {
        lemma_first_separator(path.skip(1), n - 1);
    }
}

/// The UTF-8 form of two texts, one after the other, is the two UTF-8
/// forms, one after the other.
pub proof fn lemma_encode_concat(a: Seq<char>, b: Seq<char>)
    ensures
        encode_utf8(a + b) == encode_utf8(a) + encode_utf8(b),
    decreases a.len(),
{
    if a.len() == 0 {
        assert(a + b =~= b);
        assert(encode_utf8(a) + encode_utf8(b) =~= encode_utf8(b));
    } else {
        lemma_encode_concat(a.drop_first(), b);
        assert((a + b).drop_first() =~= a.drop_first() + b);
        assert(encode_utf8(a + b) =~= encode_utf8(a) + encode_utf8(b));
    }
}

/// Whether two runs of bytes are the same.
fn same_bytes(a: &[u8], b: &[u8]) -> (r: bool)
    ensures
        r == (a@ == b@),
{
    if a.len() != b.len() {
        return false;
    }
    let mut i: usize = 0;
    while i < a.len()
        invariant
            i <= a.len(),
            a.len() == b.len(),
            forall|j: int| 0 <= j < i ==> a[j] == b[j],
        decreases a.len() - i,
    {
        if a[i] != b[i] {
            return false;
        }
        i = i + 1;
    }
    assert(a@ =~= b@);
    true
}

/// Whether two components are the same.
fn same_component(a: &Component, b: &Component) -> (r: bool)
    ensures
        r == (a@ == b@),
{
    match (a, b) {
        (Component::RootDir, Component::RootDir) => true,
        (Component::CurDir, Component::CurDir) => true,
        (Component::ParentDir, Component::ParentDir) => true,
        (Component::Normal(x), Component::Normal(y)) => same_bytes(x.as_slice(), y.as_slice()),
        _ => false,
    }
}

/// The component that the bytes of `path` from `from` to `to` make, if
/// any.
fn segment(path: &[u8], from: usize, to: usize, leading: bool) -> (r: Option<Component>)
    requires
        from <= to <= path.len(),
    ensures
        match r {
            Some(c) => segment_part(path@.subrange(from as int, to as int), leading) == Some(c@),
            None => segment_part(path@.subrange(from as int, to as int), leading) is None,
        },
{
    let ghost s = path@.subrange(from as int, to as int);
    let n = to - from;
    if n == 0 {
        None
    } else if n == 1 && path[from] == DOT {
        assert(s =~= seq![DOT]);
        if leading {
            Some(Component::CurDir)
        } else {
            None
        }
    } else if n == 2 && path[from] == DOT && path[from + 1] == DOT {
        assert(s =~= seq![DOT, DOT]);
        Some(Component::ParentDir)
    } else {
        proof {
            if s == seq![DOT] {
                assert(s.len() == 1 && s[0] == DOT);
            }
            if s == seq![DOT, DOT] {
                assert(s.len() == 2 && s[0] == DOT && s[1] == DOT);
            }
        }
        Some(Component::Normal(slice_to_vec(slice_subrange(path, from, to))))
    }
}

/// The components of a path.
pub fn components(path: &[u8]) -> (r: Vec<Component>)
    ensures
        part_views(r@) == components_of(path@),
{
    let mut r: Vec<Component> = Vec::new();
    let absolute = path.len() > 0 && path[0] == SEPARATOR;
    if absolute {
        r.push(Component::RootDir);
    }
    let ghost head = part_views(r@);
    let mut start: usize = 0;
    let mut i: usize = 0;
    let mut finished = false;
    proof {
        assert(path@.skip(0) =~= path@);
        assert(head =~= if absolute {
            seq![Part::RootDir]
        } else {
            Seq::<Part>::empty()
        });
    }
    while !finished
        invariant
            start <= i <= path.len(),
            forall|j: int| start <= j < i ==> path[j] != SEPARATOR,
            !finished ==> components_of(path@) == part_views(r@) + segment_parts(
                path@.skip(start as int),
                start == 0 && !absolute,
            ),
            finished ==> components_of(path@) == part_views(r@),
        decreases path.len() - i + if finished { 0int } else { 1int },
    {
        if i == path.len() || path[i] == SEPARATOR {
            let ghost rest = path@.skip(start as int);
            let ghost done = part_views(r@);
            proof {
                assert forall|j: int| 0 <= j < i - start implies rest[j] != SEPARATOR by {
                    assert(rest[j] == path[start + j]);
                }
                lemma_first_separator(rest, i - start);
                assert(rest.take(i - start) =~= path@.subrange(start as int, i as int));
            }
            let leading = start == 0 && !absolute;
            if let Some(c) = segment(path, start, i, leading) {
                let ghost part = c@;
                r.push(c);
                proof {
                    assert(part_views(r@) =~= done.push(part));
                    if i < path.len() {
                        let more = segment_parts(rest.skip(i - start + 1), false);
                        assert(done + (seq![part] + more) =~= part_views(r@) + more);
                    } else {
                        assert(done + (seq![part] + Seq::<Part>::empty()) =~= part_views(r@));
                    }
                }
            } else {
                proof {
                    if i == path.len() {
                        assert(done + Seq::<Part>::empty() =~= done);
                    }
                }
            }
            if i == path.len() {
                finished = true;
            } else {
                proof {
                    assert(rest.skip(i - start + 1) =~= path@.skip(i + 1));
                }
                i = i + 1;
                start = i;
            }
        } else {
            i = i + 1;
        }
    }
    r
}

/// Folds `.` and `..` away, without a look at the file system.
pub fn normalize(parts: &Vec<Component>) -> (r: Vec<Component>)
    ensures
        part_views(r@) == normal_form(part_views(parts@)),
{
    let mut r: Vec<Component> = Vec::new();
    let mut i: usize = 0;
    let ghost all = part_views(parts@);
    assert(all.take(0) =~= Seq::<Part>::empty());
    assert(part_views(r@) =~= Seq::<Part>::empty());
    while i < parts.len()
        invariant
            i <= parts.len(),
            all == part_views(parts@),
            part_views(r@) == normal_form(all.take(i as int)),
        decreases parts.len() - i,
    {
        let ghost before = part_views(r@);
        proof {
            assert(all.take(i + 1).drop_last() =~= all.take(i as int));
            assert(all.take(i + 1).last() == parts[i as int]@);
        }
        match &parts[i] {
            Component::ParentDir => {
                let pops = r.len() > 0 && match &r[r.len() - 1] {
                    Component::Normal(_) => true,
                    _ => false,
                };
                if pops {
                    r.pop();
                    assert(part_views(r@) =~= before.drop_last());
                }
            },
            Component::CurDir => {},
            Component::RootDir => {
                r.push(Component::RootDir);
                assert(part_views(r@) =~= before.push(Part::RootDir));
            },
            Component::Normal(name) => {
                r.push(Component::Normal(name.clone()));
                assert(part_views(r@) =~= before.push(Part::Normal(name@)));
            },
        }
        i = i + 1;
    }
    assert(all.take(i as int) =~= all);
    r
}

/// Whether the components of `prefix` are the first components of `path`.
pub fn has_prefix(path: &Vec<Component>, prefix: &Vec<Component>) -> (r: bool)
    ensures
        r == starts_with(part_views(path@), part_views(prefix@)),
{
    if prefix.len() > path.len() {
        return false;
    }
    let mut i: usize = 0;
    while i < prefix.len()
        invariant
            i <= prefix.len() <= path.len(),
            forall|j: int| 0 <= j < i ==> path[j]@ == prefix[j]@,
        decreases prefix.len() - i,
    {
        if !same_component(&path[i], &prefix[i]) {
            proof {
                let a = part_views(path@).take(prefix.len() as int);
                assert(a[i as int] == path[i as int]@);
                assert(part_views(prefix@)[i as int] == prefix[i as int]@);
            }
            return false;
        }
        i = i + 1;
    }
    assert(part_views(path@).take(prefix.len() as int) =~= part_views(prefix@));
    true
}

/// The normal form of a path: its components with `.` and `..` folded
/// away. The path need not exist.
pub fn normalize_path(path: &str) -> (r: Vec<Component>)
    ensures
        part_views(r@) == normal_form(components_of(encode_utf8(path@))),
{
    let parts = components(path.as_bytes());
    normalize(&parts)
}

/// Why a path from the wire is refused.
#[derive(Debug, Clone, Copy, PartialEq, Eq, Structural)]
pub enum PathError {
    /// The path is empty.
    Empty,
    /// The path is absolute.
    Absolute,
    /// The path has a `..` component.
    Traversal,
    /// The path, joined to the root, does not lie under the root.
    EscapesRoot,
    /// The target of a symbolic link is absolute.
    AbsoluteTarget,
    /// The target of a symbolic link, seen from the link, does not lie
    /// under the root.
    TargetEscapesRoot,
}

impl PathError {
    /// The error in words.
    pub open spec fn text(self) -> Seq<char> {
        match self {
            PathError::Empty => "empty path not allowed"@,
            PathError::Absolute => "absolute paths not allowed"@,
            PathError::Traversal => "path traversal not allowed"@,
            PathError::EscapesRoot => "path escapes root directory"@,
            PathError::AbsoluteTarget => "absolute symlink targets not allowed"@,
            PathError::TargetEscapesRoot => "symlink target escapes root"@,
        }
    }

    /// The error in words.
    pub fn describe(&self) -> (r: &'static str)
        ensures
            r@ == self.text(),
    {
        match self {
            PathError::Empty => "empty path not allowed",
            PathError::Absolute => "absolute paths not allowed",
            PathError::Traversal => "path traversal not allowed",
            PathError::EscapesRoot => "path escapes root directory",
            PathError::AbsoluteTarget => "absolute symlink targets not allowed",
            PathError::TargetEscapesRoot => "symlink target escapes root",
        }
    }
}

/// Whether one of the components is `..`.
pub open spec fn has_parent_dir(parts: Seq<Part>) -> bool {
    exists|i: int| 0 <= i < parts.len() && (#[trigger] parts[i]) is ParentDir
}

/// What becomes of a path from the wire: the path joined to the root, or
/// why it is refused. A path must not be empty, nor absolute, nor hold a
/// `..`; and joined to the root and brought to normal form, it must still
/// start with the normal form of the root.
pub open spec fn confined(root: Seq<u8>, relative: Seq<u8>) -> Result<Seq<u8>, PathError> {
    if relative.len() == 0 {
        Err(PathError::Empty)
    } else if is_absolute(relative) {
        Err(PathError::Absolute)
    } else if has_parent_dir(components_of(relative)) {
        Err(PathError::Traversal)
    } else if !starts_with(
        normal_form(components_of(join(root, relative))),
        normal_form(components_of(root)),
    ) {
        Err(PathError::EscapesRoot)
    } else {
        Ok(join(root, relative))
    }
}

/// What the first separator is: no byte before it is a separator, and it
/// is the end of the path or a separator.
pub proof fn lemma_first_separator_found(path: Seq<u8>)
    ensures
        0 <= first_separator(path) <= path.len(),
        forall|j: int| 0 <= j < first_separator(path) ==> path[j] != SEPARATOR,
        first_separator(path) == path.len() || path[first_separator(path)] == SEPARATOR,
    decreases path.len(),
{
    if path.len() > 0 && path[0] != SEPARATOR {
        let rest = path.skip(1);
        lemma_first_separator_found(rest);
        assert forall|j: int| 0 <= j < first_separator(path) implies path[j] != SEPARATOR by {
            if j > 0 {
                assert(rest[j - 1] == path[j]);
            }
        }
    }
}

/// The components of two paths with a separator between them are those of
/// the first and then those of the second.
pub proof fn lemma_parts_of_joined(a: Seq<u8>, b: Seq<u8>, leading: bool)
    ensures
        segment_parts(a + seq![SEPARATOR] + b, leading) == segment_parts(a, leading)
            + segment_parts(b, false),
    decreases a.len(),
{
    let s = a + seq![SEPARATOR] + b;
    let n = first_separator(a);
    lemma_first_separator_found(a);
    assert forall|j: int| 0 <= j < n implies s[j] != SEPARATOR by {
        assert(s[j] == a[j]);
    }
    if n < a.len() {
        assert(s[n] == a[n]);
    }
    lemma_first_separator(s, n);
    assert(s.take(n) =~= a.take(n));
    let head = match segment_part(a.take(n), leading) {
        Some(part) => seq![part],
        None => Seq::<Part>::empty(),
    };
    if n < a.len() {
        let tail = a.skip(n + 1);
        lemma_parts_of_joined(tail, b, false);
        assert(s.skip(n + 1) =~= tail + seq![SEPARATOR] + b);
        assert(segment_parts(a, leading) =~= head + segment_parts(tail, false));
        assert(segment_parts(s, leading) =~= head + (segment_parts(tail, false) + segment_parts(
            b,
            false,
        )));
        assert(head + (segment_parts(tail, false) + segment_parts(b, false)) =~= head
            + segment_parts(tail, false) + segment_parts(b, false));
    } else {
        assert(s.skip(n + 1) =~= b);
        assert(segment_parts(a, leading) =~= head);
        assert(segment_parts(s, leading) =~= head + segment_parts(b, false));
    }
}

/// A path without a `..` is the same with and without regard to a `.` in
/// front, but for that `.`.
proof fn lemma_leading_dot(path: Seq<u8>)
    ensures
        has_parent_dir(segment_parts(path, false)) ==> has_parent_dir(segment_parts(path, true)),
{
    let n = first_separator(path);
    let rest = if 0 <= n < path.len() {
        segment_parts(path.skip(n + 1), false)
    } else {
        Seq::<Part>::empty()
    };
    let plain = segment_parts(path, false);
    let led = segment_parts(path, true);
    if has_parent_dir(plain) {
        let i = choose|i: int| 0 <= i < plain.len() && (#[trigger] plain[i]) is ParentDir;
        match (segment_part(path.take(n), false), segment_part(path.take(n), true)) {
            (Some(part), Some(other)) => {
                assert(plain =~= seq![part] + rest);
                assert(led =~= seq![other] + rest);
                assert(part == other);
                assert(led[i] is ParentDir);
            },
            (None, Some(other)) => {
                assert(plain =~= rest);
                assert(led =~= seq![other] + rest);
                assert(led[i + 1] == rest[i]);
                assert(led[i + 1] is ParentDir);
            },
            (None, None) => {
                assert(led[i] is ParentDir);
            },
            (Some(part), None) => {},
        }
    }
}

/// Components without a `..` only add to a normal form.
pub proof fn lemma_normal_form_grows(base: Seq<Part>, more: Seq<Part>)
    requires
        !has_parent_dir(more),
    ensures
        starts_with(normal_form(base + more), normal_form(base)),
    decreases more.len(),
{
    if more.len() == 0 {
        assert(base + more =~= base);
        assert(normal_form(base).take(normal_form(base).len() as int) =~= normal_form(base));
    } else {
        let init = more.drop_last();
        assert(!has_parent_dir(init)) by {
            if has_parent_dir(init) {
                let i = choose|i: int| 0 <= i < init.len() && (#[trigger] init[i]) is ParentDir;
                assert(more[i] is ParentDir);
            }
        }
        lemma_normal_form_grows(base, init);
        assert((base + more).drop_last() =~= base + init);
        assert((base + more).last() == more.last());
        assert(!(more[more.len() - 1] is ParentDir));
        let shorter = normal_form(base + init);
        let longer = normal_form(base + more);
        let prefix = normal_form(base);
        assert(longer == shorter || longer == shorter.push(more.last()));
        assert(longer.take(prefix.len() as int) =~= shorter.take(prefix.len() as int));
    }
}

/// Path safety: a path that is relative and holds no `..` lies under the
/// root once it is joined to it: its normal form starts with the normal
/// form of the root. Such a path is refused only if it is empty.
pub proof fn lemma_relative_paths_stay_under_root(root: Seq<u8>, relative: Seq<u8>)
    requires
        relative.len() > 0,
        !is_absolute(relative),
        !has_parent_dir(components_of(relative)),
    ensures
        starts_with(
            normal_form(components_of(join(root, relative))),
            normal_form(components_of(root)),
        ),
        confined(root, relative) == Ok::<_, PathError>(join(root, relative)),
        confined(root, relative) != Err::<Seq<u8>, _>(PathError::EscapesRoot),
{
    let more = segment_parts(relative, false);
    lemma_leading_dot(relative);
    if root.len() == 0 {
        assert(join(root, relative) =~= relative);
        assert(components_of(root) =~= Seq::<Part>::empty()) by {
            assert(root.take(0) =~= Seq::<u8>::empty());
        }
        let whole = normal_form(components_of(relative));
        assert(whole.take(0) =~= Seq::<Part>::empty());
    } else {
        let joined = join(root, relative);
        let absolute = is_absolute(root);
        assert(is_absolute(joined) == absolute);
        if root.last() == SEPARATOR {
            let stem = root.drop_last();
            assert(root =~= stem + seq![SEPARATOR] + Seq::<u8>::empty());
            assert(joined =~= stem + seq![SEPARATOR] + relative);
            lemma_parts_of_joined(stem, Seq::<u8>::empty(), !absolute);
            lemma_parts_of_joined(stem, relative, !absolute);
            assert(segment_parts(Seq::<u8>::empty(), false) =~= Seq::<Part>::empty()) by {
                assert(Seq::<u8>::empty().take(0) =~= Seq::<u8>::empty());
            }
            assert(segment_parts(root, !absolute) =~= segment_parts(stem, !absolute));
        } else {
            lemma_parts_of_joined(root, relative, !absolute);
        }
        assert(segment_parts(joined, !absolute) == segment_parts(root, !absolute) + more);
        assert(components_of(joined) =~= components_of(root) + more);
        lemma_normal_form_grows(components_of(root), more);
    }
}

/// Whether one of the components is `..`.
fn any_parent_dir(parts: &Vec<Component>) -> (r: bool)
    ensures
        r == has_parent_dir(part_views(parts@)),
{
    let mut i: usize = 0;
    while i < parts.len()
        invariant
            i <= parts.len(),
            forall|j: int| 0 <= j < i ==> !(parts[j]@ is ParentDir),
        decreases parts.len() - i,
    {
        if let Component::ParentDir = &parts[i] {
            assert(part_views(parts@)[i as int] is ParentDir);
            return true;
        }
        i = i + 1;
    }
    assert forall|j: int| 0 <= j < parts.len() implies !((#[trigger] part_views(parts@)[j])
        is ParentDir) by {
        assert(part_views(parts@)[j] == parts[j]@);
    }
    false
}

/// Joins a relative path to a base.
fn join_paths(base: &str, relative: &str) -> (r: String)
    ensures
        encode_utf8(r@) == join(encode_utf8(base@), encode_utf8(relative@)),
{
    let bytes = base.as_bytes();
    let mut r = String::from_str(base);
    if bytes.len() > 0 && bytes[bytes.len() - 1] != SEPARATOR {
        proof {
            reveal_strlit("/");
            let slash = "/"@;
            assert(slash =~= seq!['/']);
            vstd::utf8::is_ascii_chars_encode_utf8(slash);
            assert(encode_utf8(slash) =~= seq![SEPARATOR]);
            lemma_encode_concat(base@, slash);
            lemma_encode_concat(base@ + slash, relative@);
        }
        r.append("/");
        r.append(relative);
    } else {
        proof {
            lemma_encode_concat(base@, relative@);
        }
        r.append(relative);
    }
    r
}

/// Confines a path from the wire to the root: the path joined to the root
/// is handed out only where it lies under the root.
pub fn validate_path(root: &str, relative: &str) -> (r: Result<String, PathError>)
    ensures
        match r {
            Ok(full) => confined(encode_utf8(root@), encode_utf8(relative@)) == Ok::<_, PathError>(
                encode_utf8(full@),
            ),
            Err(e) => confined(encode_utf8(root@), encode_utf8(relative@)) == Err::<Seq<u8>, _>(e),
        },
{
    let bytes = relative.as_bytes();
    if bytes.len() == 0 {
        return Err(PathError::Empty);
    }
    if bytes[0] == SEPARATOR {
        return Err(PathError::Absolute);
    }
    if any_parent_dir(&components(bytes)) {
        return Err(PathError::Traversal);
    }
    let full = join_paths(root, relative);
    let normalized = normalize_path(full.as_str());
    let root_normalized = normalize_path(root);
    if !has_prefix(&normalized, &root_normalized) {
        return Err(PathError::EscapesRoot);
    }
    Ok(full)
}

/// The components of the parent of a path: all but the last, unless the
/// path has no component or ends with the root.
pub open spec fn parent_of(parts: Seq<Part>) -> Option<Seq<Part>> {
    if parts.len() == 0 || parts.last() is RootDir {
        None
    } else {
        Some(parts.drop_last())
    }
}

/// What becomes of the target of a symbolic link at `link`: it must be
/// relative, and resolved from the directory of the link and brought to
/// normal form, it must start with the normal form of the root. A link
/// without a parent directory is not looked at further.
pub open spec fn target_confined(root: Seq<u8>, link: Seq<u8>, target: Seq<u8>) -> Result<
    (),
    PathError,
> {
    if is_absolute(target) {
        Err(PathError::AbsoluteTarget)
    } else {
        match parent_of(components_of(link)) {
            None => Ok(()),
            Some(parent) => if starts_with(
                normal_form(parent + components_of(target)),
                normal_form(components_of(root)),
            ) {
                Ok(())
            } else {
                Err(PathError::TargetEscapesRoot)
            },
        }
    }
}

/// Confines the target of a symbolic link to the root.
pub fn validate_symlink_target(root: &str, link_path: &str, target: &str) -> (r: Result<
    (),
    PathError,
>)
    ensures
        r == target_confined(encode_utf8(root@), encode_utf8(link_path@), encode_utf8(target@)),
{
    let target_bytes = target.as_bytes();
    if target_bytes.len() > 0 && target_bytes[0] == SEPARATOR {
        return Err(PathError::AbsoluteTarget);
    }
    let mut resolved = components(link_path.as_bytes());
    let ghost link_parts = part_views(resolved@);
    let has_parent = resolved.len() > 0 && match &resolved[resolved.len() - 1] {
        Component::RootDir => false,
        _ => true,
    };
    if !has_parent {
        return Ok(());
    }
    resolved.pop();
    let mut target_parts = components(target_bytes);
    let ghost target_views = part_views(target_parts@);
    resolved.append(&mut target_parts);
    assert(part_views(resolved@) =~= link_parts.drop_last() + target_views);
    let normalized = normalize(&resolved);
    let root_normalized = normalize_path(root);
    if has_prefix(&normalized, &root_normalized) {
        Ok(())
    } else {
        Err(PathError::TargetEscapesRoot)
    }
}

} // verus!
