//! Slash-separated paths, as on Unix hosts: their components, containment, joining, parents and
//! extension. A backslash or a colon is a character of a name like any other.
use crate::text::{byte_len, chars_of, lemma_byte_len_of_concat};
use vstd::prelude::*;
use vstd::string::{StrSliceExecFns, StringExecFns};

verus! {

/// One component of a path.
#[derive(Debug, PartialEq, Eq)]
pub enum Component {
    /// The root directory: the path is absolute.
    RootDir,
    /// A leading `.`.
    CurDir,
    /// A `..` segment.
    ParentDir,
    /// A plain name.
    Normal(String),
}

/// A component, as contracts speak of it.
pub enum Part {
    Root,
    Current,
    Parent,
    Name(Seq<char>),
}

impl View for Component {
    type V = Part;

    open spec fn view(&self) -> Part {
        match self {
            Component::RootDir => Part::Root,
            Component::CurDir => Part::Current,
            Component::ParentDir => Part::Parent,
            Component::Normal(name) => Part::Name(name@),
        }
    }
}

/// The views of a list of components.
pub open spec fn views(list: Seq<Component>) -> Seq<Part> {
    list.map_values(|c: Component| c@)
}

/// The runs of characters between the slashes of `path`: one more than there are slashes.
pub open spec fn pieces(path: Seq<char>) -> Seq<Seq<char>>
    decreases path.len(),
{
    if path.len() == 0 {
        seq![Seq::empty()]
    } else {
        let before = pieces(path.drop_last());
        if path.last() == '/' {
            before.push(Seq::empty())
        } else {
            before.drop_last().push(before.last().push(path.last()))
        }
    }
}

/// The piece `.`.
pub open spec fn is_dot(piece: Seq<char>) -> bool {
    piece.len() == 1 && piece[0] == '.'
}

/// The piece `..`.
pub open spec fn is_dot_dot(piece: Seq<char>) -> bool {
    piece.len() == 2 && piece[0] == '.' && piece[1] == '.'
}

/// What one piece adds to the components: empty pieces and `.` add nothing.
pub open spec fn part_of(piece: Seq<char>) -> Seq<Part> {
    if piece.len() == 0 || is_dot(piece) {
        Seq::empty()
    } else if is_dot_dot(piece) {
        seq![Part::Parent]
    } else {
        seq![Part::Name(piece)]
    }
}

/// The components that a list of pieces comes to.
pub open spec fn body(list: Seq<Seq<char>>) -> Seq<Part>
    decreases list.len(),
{
    if list.len() == 0 {
        Seq::empty()
    } else {
        body(list.drop_last()) + part_of(list.last())
    }
}

/// What the start of a path adds: the root of an absolute path, or a leading `.`.
pub open spec fn leading(path: Seq<char>) -> Seq<Part> {
    if path.len() > 0 && path[0] == '/' {
        seq![Part::Root]
    } else if path.len() > 0 && path[0] == '.' && (path.len() == 1 || path[1] == '/') {
        seq![Part::Current]
    } else {
        Seq::empty()
    }
}

/// The components of `path`. Repeated and trailing slashes do not count, and neither does a `.`
/// other than a leading one.
pub open spec fn parts(path: Seq<char>) -> Seq<Part> {
    leading(path) + body(pieces(path))
}

/// `target` is `dir` itself or sits beneath it, component by component.
pub open spec fn within(dir: Seq<char>, target: Seq<char>) -> bool {
    parts(dir).is_prefix_of(parts(target))
}

/// `rel` taken relative to `base`; an absolute `rel` stands for itself.
pub open spec fn joined(base: Seq<char>, rel: Seq<char>) -> Seq<char> {
    if rel.len() > 0 && rel[0] == '/' {
        rel
    } else if base.len() == 0 || base.last() == '/' {
        base + rel
    } else {
        base.push('/') + rel
    }
}

/// The final component of a path, where it is a plain name.
pub open spec fn file_name(path: Seq<char>) -> Option<Seq<char>> {
    if parts(path).len() == 0 {
        None
    } else {
        match parts(path).last() {
            Part::Name(name) => Some(name),
            _ => None,
        }
    }
}

/// What follows the last dot of `name`, where that dot is there and is not its first character.
pub open spec fn after_last_dot(name: Seq<char>) -> Option<Seq<char>>
    decreases name.len(),
{
    if name.len() <= 1 {
        None
    } else if name.last() == '.' {
        Some(Seq::empty())
    } else {
        match after_last_dot(name.drop_last()) {
            Some(tail) => Some(tail.push(name.last())),
            None => None,
        }
    }
}

/// The extension of the final component of a path.
pub open spec fn extension_of(path: Seq<char>) -> Option<Seq<char>> {
    match file_name(path) {
        Some(name) => after_last_dot(name),
        None => None,
    }
}

pub proof fn lemma_pieces_not_empty(path: Seq<char>)
    ensures
        pieces(path).len() >= 1,
    decreases path.len(),
{
    if path.len() > 0 {
        lemma_pieces_not_empty(path.drop_last());
    }
}

/// Appends to `out` what the piece between `start` and `end` adds.
fn push_piece(path: &str, chars: &Vec<char>, start: usize, end: usize, out: &mut Vec<Component>)
    requires
        chars@ == path@,
        start <= end <= chars@.len(),
    ensures
        views(final(out)@) == views(old(out)@) + part_of(path@.subrange(start as int, end as int)),
{
    let size: usize = end - start;
    let ghost piece = path@.subrange(start as int, end as int);
    let ghost before = out@;
    if size == 0 || (size == 1 && chars[start] == '.') {
        assert(part_of(piece) =~= Seq::empty());
    } else if size == 2 && chars[start] == '.' && chars[start + 1] == '.' {
        out.push(Component::ParentDir);
        assert(views(out@) =~= views(before).push(Part::Parent));
    } else {
        out.push(Component::Normal(path.substring_char(start, end).to_owned()));
        assert(views(out@) =~= views(before).push(Part::Name(piece)));
    }
}

/// The components of `path`.
pub fn components(path: &str) -> (list: Vec<Component>)
    ensures
        views(list@) == parts(path@),
{
    let chars = chars_of(path);
    let size: usize = chars.len();
    let mut out: Vec<Component> = Vec::new();
    assert(views(out@) =~= Seq::empty());
    if size > 0 && chars[0] == '/' {
        out.push(Component::RootDir);
        assert(views(out@) =~= seq![Part::Root]);
    } else if size > 0 && chars[0] == '.' && (size == 1 || chars[1] == '/') {
        out.push(Component::CurDir);
        assert(views(out@) =~= seq![Part::Current]);
    }
    let mut start: usize = 0;
    let mut i: usize = 0;
    proof {
        assert(path@.take(0) =~= Seq::empty());
        assert(pieces(path@.take(0)).drop_last() =~= Seq::empty());
        assert(path@.subrange(0, 0) =~= Seq::empty());
    }
    while i < size
        invariant
            chars@ == path@,
            size == chars@.len(),
            start <= i <= size,
            pieces(path@.take(i as int)).len() >= 1,
            pieces(path@.take(i as int)).last() == path@.subrange(start as int, i as int),
            views(out@) == leading(path@) + body(pieces(path@.take(i as int)).drop_last()),
        decreases size - i,
    {
        let ghost done = path@.take(i as int);
        let ghost next = path@.take(i as int + 1);
        proof {
            assert(next.drop_last() =~= done);
            assert(next.last() == chars@[i as int]);
        }
        if chars[i] == '/' {
            push_piece(path, &chars, start, i, &mut out);
            proof {
                assert(pieces(next) == pieces(done).push(Seq::empty()));
                assert(pieces(next).drop_last() =~= pieces(done));
                assert(path@.subrange(i as int + 1, i as int + 1) =~= Seq::empty());
            }
            start = i + 1;
        } else {
            proof {
                assert(pieces(next).drop_last() =~= pieces(done).drop_last());
                assert(path@.subrange(start as int, i as int + 1) =~= path@.subrange(
                    start as int,
                    i as int,
                ).push(chars@[i as int]));
            }
        }
        i = i + 1;
    }
    assert(path@.take(size as int) =~= path@);
    push_piece(path, &chars, start, size, &mut out);
    out
}

/// Whether two components are the same.
fn same_component(a: &Component, b: &Component) -> (same: bool)
    ensures
        same == (a@ == b@),
{
    match (a, b) {
        (Component::RootDir, Component::RootDir) => true,
        (Component::CurDir, Component::CurDir) => true,
        (Component::ParentDir, Component::ParentDir) => true,
        (Component::Normal(x), Component::Normal(y)) => *x == *y,
        _ => false,
    }
}

/// Whether `target` is `dir` itself or sits beneath it (component by component, so `/a/bc` is
/// not within `/a/b`).
pub fn path_within(dir: &str, target: &str) -> (inside: bool)
    ensures
        inside == within(dir@, target@),
{
    let outer = components(dir);
    let inner = components(target);
    let size: usize = outer.len();
    if size > inner.len() {
        return false;
    }
    let mut i: usize = 0;
    while i < size
        invariant
            size == outer@.len(),
            size <= inner@.len(),
            i <= size,
            views(outer@) == parts(dir@),
            views(inner@) == parts(target@),
            forall|j: int| 0 <= j < i ==> parts(dir@)[j] == parts(target@)[j],
        decreases size - i,
    {
        if !same_component(&outer[i], &inner[i]) {
            assert(parts(dir@)[i as int] == outer@[i as int]@);
            assert(parts(target@)[i as int] == inner@[i as int]@);
            proof {
                if within(dir@, target@) {
                    assert(parts(target@).subrange(0, size as int)[i as int] == parts(
                        dir@,
                    )[i as int]);
                }
            }
            return false;
        }
        assert(parts(dir@)[i as int] == outer@[i as int]@);
        assert(parts(target@)[i as int] == inner@[i as int]@);
        i = i + 1;
    }
    assert(parts(dir@) =~= parts(target@).subrange(0, size as int));
    true
}

/// `rel` taken relative to `base`; an absolute `rel` stands for itself.
pub fn join(base: &str, rel: &str) -> (path: String)
    ensures
        path@ == joined(base@, rel@),
{
    let tail = chars_of(rel);
    if tail.len() > 0 && tail[0] == '/' {
        return rel.to_owned();
    }
    let head = chars_of(base);
    let mut path = base.to_owned();
    if head.len() > 0 && head[head.len() - 1] != '/' {
        proof {
            reveal_strlit("/");
        }
        path.append("/");
        assert(path@ =~= base@.push('/'));
    }
    path.append(rel);
    path
}

/// What follows the last dot of `name`, where that dot is there and is not its first character.
fn split_at_last_dot(name: &str) -> (tail: Option<String>)
    ensures
        tail is Some <==> after_last_dot(name@) is Some,
        tail matches Some(text) ==> after_last_dot(name@) == Some(text@),
{
    let chars = chars_of(name);
    let size: usize = chars.len();
    let mut end: usize = size;
    proof {
        assert(name@.take(size as int) =~= name@);
        assert(name@.skip(size as int) =~= Seq::empty());
    }
    while end > 1
        invariant
            chars@ == name@,
            size == chars@.len(),
            end <= size,
            after_last_dot(name@) == (match after_last_dot(name@.take(end as int)) {
                Some(tail) => Some(tail + name@.skip(end as int)),
                None => None,
            }),
        decreases end,
    {
        let ghost head = name@.take(end as int);
        if chars[end - 1] == '.' {
            proof {
                assert(head.last() == '.');
                assert(Seq::<char>::empty() + name@.skip(end as int) =~= name@.subrange(
                    end as int,
                    size as int,
                ));
            }
            return Some(name.substring_char(end, size).to_owned());
        }
        proof {
            assert(head.drop_last() =~= name@.take(end as int - 1));
            assert(head.last() == name@[end as int - 1]);
            match after_last_dot(head.drop_last()) {
                Some(tail) => {
                    assert(tail.push(head.last()) + name@.skip(end as int) =~= tail + name@.skip(
                        end as int - 1,
                    ));
                },
                None => {},
            }
        }
        end = end - 1;
    }
    None
}

/// The extension of the final component of `path`.
pub fn extension(path: &str) -> (tail: Option<String>)
    ensures
        tail is Some <==> extension_of(path@) is Some,
        tail matches Some(text) ==> extension_of(path@) == Some(text@),
{
    let list = components(path);
    if list.len() == 0 {
        return None;
    }
    assert(parts(path@).last() == list@.last()@);
    match &list[list.len() - 1] {
        Component::Normal(name) => split_at_last_dot(name.as_str()),
        _ => None,
    }
}

/// Joining two paths with a slash puts their pieces side by side.
pub proof fn lemma_pieces_of_join(a: Seq<char>, b: Seq<char>)
    ensures
        pieces(a.push('/') + b) == pieces(a) + pieces(b),
    decreases b.len(),
{
    let whole = a.push('/') + b;
    lemma_pieces_not_empty(a);
    lemma_pieces_not_empty(b);
    if b.len() == 0 {
        assert(whole =~= a.push('/'));
        assert(whole.drop_last() =~= a);
        assert(pieces(a).push(Seq::empty()) =~= pieces(a) + pieces(b));
    } else {
        let shorter = b.drop_last();
        lemma_pieces_not_empty(shorter);
        lemma_pieces_of_join(a, shorter);
        assert(whole.drop_last() =~= a.push('/') + shorter);
        assert(whole.last() == b.last());
        let before = pieces(a) + pieces(shorter);
        assert(before.last() == pieces(shorter).last());
        assert(before.drop_last() =~= pieces(a) + pieces(shorter).drop_last());
        assert(pieces(whole) =~= pieces(a) + pieces(b));
    }
}

pub proof fn lemma_body_of_concat(x: Seq<Seq<char>>, y: Seq<Seq<char>>)
    ensures
        body(x + y) == body(x) + body(y),
    decreases y.len(),
{
    if y.len() == 0 {
        assert(x + y =~= x);
        assert(body(x) + body(y) =~= body(x));
    } else {
        lemma_body_of_concat(x, y.drop_last());
        assert((x + y).drop_last() =~= x + y.drop_last());
        assert((x + y).last() == y.last());
        assert(body(x + y) =~= body(x) + body(y));
    }
}

/// The body of a path holds neither a root nor a leading `.`.
pub proof fn lemma_body_parts(list: Seq<Seq<char>>)
    ensures
        forall|i: int|
            0 <= i < body(list).len() ==> (#[trigger] body(list)[i] is Parent || body(
                list,
            )[i] is Name),
    decreases list.len(),
{
    if list.len() > 0 {
        lemma_body_parts(list.drop_last());
    }
}

/// Under a base that is not empty, a relative path adds its body to the components of the base.
pub proof fn lemma_parts_of_join(base: Seq<char>, rel: Seq<char>)
    requires
        base.len() > 0,
        rel.len() == 0 || rel[0] != '/',
    ensures
        parts(joined(base, rel)) == parts(base) + body(pieces(rel)),
{
    let path = joined(base, rel);
    if base.last() == '/' {
        let head = base.drop_last();
        assert(head.push('/') =~= base);
        lemma_pieces_of_join(head, rel);
        lemma_body_of_concat(pieces(head), pieces(rel));
        assert(pieces(base) == pieces(head).push(Seq::empty()));
        assert(pieces(base).drop_last() =~= pieces(head));
        assert(body(pieces(base)) =~= body(pieces(head)));
    } else {
        lemma_pieces_of_join(base, rel);
        lemma_body_of_concat(pieces(base), pieces(rel));
    }
    assert(leading(path) =~= leading(base)) by {
        assert(path[0] == base[0]);
        if base.len() > 1 {
            assert(path[1] == base[1]);
        } else if base.last() != '/' {
            assert(path[1] == '/');
        }
    }
    assert(parts(path) =~= parts(base) + body(pieces(rel)));
}

/// `path` without what adds nothing at its end: trailing slashes and `.` segments, but for a root
/// or a leading `.`.
pub open spec fn trimmed(path: Seq<char>) -> Seq<char>
    decreases path.len(),
{
    if path.len() <= leading(path).len() {
        path
    } else if path.last() == '/' || (path.len() >= 2 && path.last() == '.' && path[path.len() - 2]
        == '/') {
        trimmed(path.drop_last())
    } else {
        path
    }
}

/// `path` up to and with its last slash.
pub open spec fn before_last_piece(path: Seq<char>) -> Seq<char>
    decreases path.len(),
{
    if path.len() == 0 || path.last() == '/' {
        path
    } else {
        before_last_piece(path.drop_last())
    }
}

/// The path one component further up. The empty path and the root have none.
pub open spec fn parent(path: Seq<char>) -> Option<Seq<char>> {
    if parts(path).len() == 0 || parts(path).last() is Root {
        None
    } else {
        Some(trimmed(before_last_piece(trimmed(path))))
    }
}

/// The path one component further up.
pub fn parent_of(path: &str) -> (up: Option<String>)
    ensures
        up is Some <==> parent(path@) is Some,
        up matches Some(text) ==> parent(path@) == Some(text@),
        up is Some <==> parts(path@).len() > 0 && parts(path@).last() !is Root,
        up matches Some(text) ==> parts(text@) == parts(path@).drop_last(),
        up matches Some(text) ==> text@.len() < path@.len(),
{
    let list = components(path);
    if list.len() == 0 {
        return None;
    }
    assert(parts(path@).last() == list@.last()@);
    if let Component::RootDir = &list[list.len() - 1] {
        return None;
    }
    proof {
        lemma_parts_of_parent(path@);
    }
    let chars = chars_of(path);
    let size: usize = chars.len();
    let mut lead: usize = 0;
    if chars[0] == '/' || (chars[0] == '.' && (size == 1 || chars[1] == '/')) {
        lead = 1;
    }
    assert(lead == leading(path@).len());
    let end = trim(&chars, lead, size);
    assert(path@.take(size as int) =~= path@);
    let ghost whole = path@.take(end as int);
    let mut cut: usize = end;
    while cut > 0 && chars[cut - 1] != '/'
        invariant
            chars@ == path@,
            cut <= end <= chars@.len(),
            before_last_piece(path@.take(end as int)) == before_last_piece(path@.take(cut as int)),
        decreases cut,
    {
        assert(path@.take(cut as int).drop_last() =~= path@.take(cut as int - 1));
        cut = cut - 1;
    }
    assert(before_last_piece(whole) == path@.take(cut as int));
    if cut < lead {
        // A lone leading `.`: nothing is left of it.
        assert(cut == 0);
        assert(path@.take(0).len() == 0);
        return Some(path.substring_char(0, 0).to_owned());
    }
    proof {
        if cut > 0 {
            lemma_leading_of_prefix(path@, cut as int);
        }
    }
    let stop = trim(&chars, if cut == 0 { 0 } else { lead }, cut);
    Some(path.substring_char(0, stop).to_owned())
}

/// Where the trimmed form of the first `size` characters ends.
fn trim(chars: &Vec<char>, lead: usize, size: usize) -> (end: usize)
    requires
        size <= chars@.len(),
        lead == leading(chars@.take(size as int)).len(),
    ensures
        end <= size,
        trimmed(chars@.take(size as int)) == chars@.take(end as int),
{
    let mut end: usize = size;
    while end > lead && (chars[end - 1] == '/' || (end >= 2 && chars[end - 1] == '.' && chars[end
        - 2] == '/'))
        invariant
            end <= size <= chars@.len(),
            lead == leading(chars@.take(end as int)).len(),
            trimmed(chars@.take(size as int)) == trimmed(chars@.take(end as int)),
        decreases end,
    {
        let ghost now = chars@.take(end as int);
        proof {
            assert(now.drop_last() =~= chars@.take(end as int - 1));
            assert(now.last() == chars@[end as int - 1]);
            lemma_trim_step(now);
        }
        end = end - 1;
    }
    end
}

/// A prefix that ends in a slash starts as the whole path does.
proof fn lemma_leading_of_prefix(path: Seq<char>, cut: int)
    requires
        0 < cut <= path.len(),
        path[cut - 1] == '/',
    ensures
        leading(path.take(cut)) == leading(path),
{
    let head = path.take(cut);
    assert(head[0] == path[0]);
    if cut >= 2 {
        assert(head[1] == path[1]);
    }
}

/// One step of trimming keeps the components.
proof fn lemma_trim_step(path: Seq<char>)
    requires
        path.len() > leading(path).len(),
        path.last() == '/' || (path.len() >= 2 && path.last() == '.' && path[path.len() - 2]
            == '/'),
    ensures
        leading(path.drop_last()) == leading(path),
        parts(path.drop_last()) == parts(path),
{
    let shorter = path.drop_last();
    assert(shorter.len() > 0);
    assert(shorter[0] == path[0]);
    if shorter.len() > 1 {
        assert(shorter[1] == path[1]);
    }
    if path.last() == '/' {
        assert(pieces(path) == pieces(shorter).push(Seq::empty()));
        assert(pieces(path).drop_last() =~= pieces(shorter));
        assert(body(pieces(path)) =~= body(pieces(shorter)));
    } else {
        assert(shorter.last() == '/');
        let before = pieces(shorter);
        let head = pieces(shorter.drop_last());
        assert(before == head.push(Seq::empty()));
        assert(before.drop_last() =~= head);
        assert(pieces(path) == head.push(Seq::empty().push('.')));
        assert(pieces(path).drop_last() =~= head);
        assert(body(before) =~= body(head));
        assert(body(pieces(path)) =~= body(head));
    }
}

proof fn lemma_trimmed(path: Seq<char>)
    ensures
        parts(trimmed(path)) == parts(path),
        trimmed(path).len() <= path.len(),
        trimmed(path).len() > leading(trimmed(path)).len() ==> {
            let end = trimmed(path);
            end.last() != '/' && !(end.len() >= 2 && end.last() == '.' && end[end.len() - 2]
                == '/')
        },
    decreases path.len(),
{
    if path.len() > leading(path).len() && (path.last() == '/' || (path.len() >= 2 && path.last()
        == '.' && path[path.len() - 2] == '/')) {
        lemma_trim_step(path);
        lemma_trimmed(path.drop_last());
    }
}

/// The last piece of a path is what follows its last slash.
proof fn lemma_before_last_piece(path: Seq<char>)
    ensures
        ({
            let head = before_last_piece(path);
            let tail = path.skip(head.len() as int);
            &&& head.is_prefix_of(path)
            &&& !tail.contains('/')
            &&& head.len() > 0 ==> head.last() == '/'
        }),
    decreases path.len(),
{
    let head = before_last_piece(path);
    let tail = path.skip(head.len() as int);
    if path.len() == 0 || path.last() == '/' {
        assert(head =~= path.subrange(0, head.len() as int));
    } else {
        let shorter = path.drop_last();
        lemma_before_last_piece(shorter);
        assert(head =~= path.subrange(0, head.len() as int)) by {
            assert(shorter.subrange(0, head.len() as int) =~= path.subrange(0, head.len() as int));
        }
        if tail.contains('/') {
            let i = choose|i: int| 0 <= i < tail.len() && tail[i] == '/';
            assert(i < tail.len() - 1);
            assert(shorter.skip(head.len() as int)[i] == '/');
        }
    }
}

/// Going up takes the last component away, and shortens the text.
pub proof fn lemma_parts_of_parent(path: Seq<char>)
    requires
        parts(path).len() > 0,
        parts(path).last() !is Root,
    ensures
        parent(path) is Some,
        parts(parent(path)->0) == parts(path).drop_last(),
        parent(path)->0.len() < path.len(),
{
    let end = trimmed(path);
    lemma_trimmed(path);
    let head = before_last_piece(end);
    let tail = end.skip(head.len() as int);
    lemma_before_last_piece(end);
    lemma_trimmed(head);
    assert(end =~= head + tail);
    lemma_pieces_without_slash(tail);
    reveal_with_fuel(body, 2);
    if end.len() <= leading(end).len() {
        if end.len() == 0 {
            assert(end =~= Seq::empty());
            assert(pieces(end).drop_last() =~= Seq::empty());
            assert(parts(end) =~= Seq::empty());
        } else if end[0] == '/' {
            assert(end =~= seq!['/']);
            lemma_root_parts();
        } else {
            assert(end =~= seq!['.']);
            assert(head =~= Seq::empty()) by {
                if head.len() > 0 {
                    assert(head[0] == end[0]);
                }
            }
            assert(tail =~= end);
            assert(body(seq![tail]) =~= Seq::empty()) by {
                assert(seq![tail].drop_last() =~= Seq::empty());
            }
            assert(parts(end) =~= seq![Part::Current]);
            assert(pieces(head).drop_last() =~= Seq::empty());
            assert(parts(head) =~= Seq::empty());
            assert(parts(path).drop_last() =~= Seq::empty());
        }
    } else {
        assert(tail.len() > 0) by {
            if tail.len() == 0 {
                assert(head =~= end);
            }
        }
        assert(tail.last() == end.last());
        assert(!is_dot(tail)) by {
            if is_dot(tail) {
                if head.len() > 0 {
                    assert(end[end.len() - 2] == head.last());
                } else {
                    assert(end =~= tail);
                }
            }
        }
        assert(part_of(tail).len() == 1);
        if head.len() == 0 {
            assert(end =~= tail);
            assert(end[0] != '/') by {
                assert(tail.contains(tail[0]));
            }
            assert(leading(end) =~= Seq::empty()) by {
                if end.len() > 1 {
                    assert(tail.contains(tail[1]));
                }
            }
            assert(seq![tail].drop_last() =~= Seq::empty());
            assert(body(seq![tail]) =~= part_of(tail));
            assert(head =~= Seq::empty());
            assert(pieces(head).drop_last() =~= Seq::empty());
            assert(parts(head) =~= Seq::empty());
            assert(parts(path).drop_last() =~= parts(head));
        } else {
            let base = head.drop_last();
            assert(base.push('/') =~= head);
            lemma_pieces_of_join(base, tail);
            assert(pieces(end) =~= pieces(base).push(tail));
            assert(pieces(end).drop_last() =~= pieces(base));
            assert(pieces(head) == pieces(base).push(Seq::empty()));
            assert(pieces(head).drop_last() =~= pieces(base));
            assert(body(pieces(head)) =~= body(pieces(base)));
            assert(head =~= end.take(head.len() as int));
            lemma_leading_of_prefix(end, head.len() as int);
            assert(parts(end) =~= parts(head) + part_of(tail));
            assert(parts(path).drop_last() =~= parts(head));
        }
    }
}

/// What a path is trimmed to is the start of its text, and so is the path one component up.
pub proof fn lemma_parent_is_a_prefix(path: Seq<char>)
    ensures
        parent(path) matches Some(up) ==> up.is_prefix_of(path),
{
    let end = trimmed(path);
    let head = before_last_piece(end);
    let up = trimmed(head);
    lemma_trimmed_is_a_prefix(path);
    lemma_before_last_piece(end);
    lemma_trimmed_is_a_prefix(head);
    assert(up =~= path.subrange(0, up.len() as int)) by {
        assert forall|i: int| 0 <= i < up.len() implies up[i] == path[i] by {
            assert(head.subrange(0, up.len() as int)[i] == head[i]);
            assert(end.subrange(0, head.len() as int)[i] == end[i]);
            assert(path.subrange(0, end.len() as int)[i] == path[i]);
        }
    }
}

proof fn lemma_trimmed_is_a_prefix(path: Seq<char>)
    ensures
        trimmed(path).is_prefix_of(path),
    decreases path.len(),
{
    let end = trimmed(path);
    if end == path {
        assert(path =~= path.subrange(0, path.len() as int));
    } else {
        let shorter = path.drop_last();
        lemma_trimmed_is_a_prefix(shorter);
        assert(end =~= path.subrange(0, end.len() as int)) by {
            assert(shorter.subrange(0, end.len() as int) =~= path.subrange(0, end.len() as int));
        }
    }
}

/// What contracts see of a list of components is each of them, in order.
pub proof fn law_components_are_seen_as_they_are(list: Seq<Component>, name: String)
    ensures
        Component::RootDir@ == Part::Root,
        Component::CurDir@ == Part::Current,
        Component::ParentDir@ == Part::Parent,
        Component::Normal(name)@ == Part::Name(name@),
        views(list).len() == list.len(),
        forall|i: int| 0 <= i < list.len() ==> #[trigger] views(list)[i] == list[i]@,
{
}

/// A path without slashes is one component: none where it is empty, and otherwise a leading `.`, a
/// `..` or a name.
pub proof fn law_components_of_a_name(name: Seq<char>)
    requires
        !name.contains('/'),
    ensures
        name.len() == 0 ==> parts(name) == Seq::<Part>::empty(),
        name == seq!['.'] ==> parts(name) == seq![Part::Current],
        name == seq!['.', '.'] ==> parts(name) == seq![Part::Parent],
        name.len() > 0 && name != seq!['.'] && name != seq!['.', '.'] ==> parts(name) == seq![
            Part::Name(name),
        ],
{
    lemma_pieces_without_slash(name);
    lemma_body_of_one(name);
    lemma_dots(name);
    if name.len() > 0 {
        assert(name.contains(name[0]));
    }
    if name.len() > 1 {
        assert(name.contains(name[1]));
    }
    assert(parts(name) =~= leading(name) + part_of(name));
}

/// One more slash and what follows it add one component at most: none where nothing or a `.`
/// follows, and otherwise a `..` or a name.
pub proof fn law_components_further_down(path: Seq<char>, name: Seq<char>)
    requires
        path.len() > 0,
        !name.contains('/'),
    ensures
        name.len() == 0 || name == seq!['.'] ==> parts(path.push('/') + name) == parts(path),
        name == seq!['.', '.'] ==> parts(path.push('/') + name) == parts(path).push(Part::Parent),
        name.len() > 0 && name != seq!['.'] && name != seq!['.', '.'] ==> parts(
            path.push('/') + name,
        ) == parts(path).push(Part::Name(name)),
{
    let whole = path.push('/') + name;
    lemma_pieces_without_slash(name);
    lemma_body_of_one(name);
    lemma_dots(name);
    lemma_pieces_of_join(path, name);
    lemma_body_of_concat(pieces(path), pieces(name));
    assert(leading(whole) =~= leading(path)) by {
        assert(whole[0] == path[0]);
        if path.len() > 1 {
            assert(whole[1] == path[1]);
        } else {
            assert(whole[1] == '/');
        }
    }
    assert(parts(whole) =~= parts(path) + part_of(name));
}

/// A path that starts with a slash starts at the root.
pub proof fn law_components_of_an_absolute_path(name: Seq<char>)
    requires
        !name.contains('/'),
    ensures
        name.len() == 0 || name == seq!['.'] ==> parts(seq!['/'] + name) == seq![Part::Root],
        name == seq!['.', '.'] ==> parts(seq!['/'] + name) == seq![Part::Root, Part::Parent],
        name.len() > 0 && name != seq!['.'] && name != seq!['.', '.'] ==> parts(seq!['/'] + name)
            == seq![Part::Root, Part::Name(name)],
{
    let whole = seq!['/'] + name;
    let start = Seq::<char>::empty();
    lemma_pieces_without_slash(name);
    lemma_pieces_without_slash(start);
    lemma_body_of_one(name);
    lemma_body_of_one(start);
    lemma_dots(name);
    assert(start.push('/') + name =~= whole);
    lemma_pieces_of_join(start, name);
    lemma_body_of_concat(pieces(start), pieces(name));
    assert(leading(whole) =~= seq![Part::Root]);
    assert(parts(whole) =~= seq![Part::Root] + part_of(name));
}

proof fn lemma_body_of_one(name: Seq<char>)
    ensures
        body(seq![name]) == part_of(name),
{
    reveal_with_fuel(body, 2);
    assert(seq![name].drop_last() =~= Seq::empty());
    assert(body(seq![name]) =~= part_of(name));
}

proof fn lemma_dots(name: Seq<char>)
    ensures
        is_dot(name) <==> name == seq!['.'],
        is_dot_dot(name) <==> name == seq!['.', '.'],
{
    if is_dot(name) {
        assert(name =~= seq!['.']);
    }
    if is_dot_dot(name) {
        assert(name =~= seq!['.', '.']);
    }
}

/// A directory contains exactly the paths that its components start.
pub proof fn law_within_is_by_the_first_components(dir: Seq<char>, target: Seq<char>)
    ensures
        within(dir, target) <==> exists|rest: Seq<Part>| parts(target) == #[trigger] (parts(dir)
            + rest),
{
    let n = parts(dir).len() as int;
    if within(dir, target) {
        let rest = parts(target).skip(n);
        assert(parts(target) =~= parts(dir) + rest);
    }
    if exists|rest: Seq<Part>| parts(target) == #[trigger] (parts(dir) + rest) {
        let rest = choose|rest: Seq<Part>| parts(target) == #[trigger] (parts(dir) + rest);
        assert(parts(dir) =~= parts(target).subrange(0, n));
    }
}

/// Joining keeps both texts as they are, with one slash between them where there is none yet. An
/// absolute path stands for itself.
pub proof fn law_joining_keeps_both_texts(base: Seq<char>, rel: Seq<char>)
    ensures
        rel.len() > 0 && rel[0] == '/' ==> joined(base, rel) == rel,
        rel.len() == 0 || rel[0] != '/' ==> {
            &&& base.is_prefix_of(joined(base, rel))
            &&& joined(base, rel).skip(joined(base, rel).len() - rel.len()) == rel
            &&& base.len() == 0 || base.last() == '/' ==> joined(base, rel).len() == base.len()
                + rel.len()
            &&& base.len() > 0 && base.last() != '/' ==> joined(base, rel).len() == base.len() + 1
                + rel.len() && joined(base, rel)[base.len() as int] == '/'
        },
{
    let path = joined(base, rel);
    if rel.len() == 0 || rel[0] != '/' {
        assert(base =~= path.subrange(0, base.len() as int));
        assert(path.skip(path.len() - rel.len()) =~= rel);
    }
}

/// Joining puts the components side by side; only a leading `.` of the second path is lost.
pub proof fn law_joining_adds_components(base: Seq<char>, rel: Seq<char>)
    requires
        base.len() > 0,
        rel.len() == 0 || rel[0] != '/',
    ensures
        parts(rel).len() > 0 && parts(rel)[0] is Current ==> parts(joined(base, rel)) == parts(base)
            + parts(rel).skip(1),
        !(parts(rel).len() > 0 && parts(rel)[0] is Current) ==> parts(joined(base, rel)) == parts(
            base,
        ) + parts(rel),
{
    lemma_parts_of_join(base, rel);
    lemma_body_parts(pieces(rel));
    if leading(rel).len() == 0 {
        assert(parts(rel) =~= body(pieces(rel)));
    } else {
        assert(parts(rel).skip(1) =~= body(pieces(rel)));
    }
}

/// The extension is what follows the last dot of the final component's name.
pub proof fn law_extension_follows_the_last_dot(path: Seq<char>, stem: Seq<char>, tail: Seq<char>)
    requires
        parts(path).len() > 0,
        parts(path).last() == Part::Name(stem.push('.') + tail),
        stem.len() > 0,
        !tail.contains('.'),
    ensures
        extension_of(path) == Some(tail),
{
    lemma_after_last_dot(stem, tail);
}

proof fn lemma_after_last_dot(stem: Seq<char>, tail: Seq<char>)
    requires
        stem.len() > 0,
        !tail.contains('.'),
    ensures
        after_last_dot(stem.push('.') + tail) == Some(tail),
    decreases tail.len(),
{
    let name = stem.push('.') + tail;
    if tail.len() == 0 {
        assert(name.last() == '.');
        assert(tail =~= Seq::empty());
    } else {
        let shorter = tail.drop_last();
        assert(tail.contains(tail.last()));
        assert(!shorter.contains('.')) by {
            if shorter.contains('.') {
                let i = choose|i: int| 0 <= i < shorter.len() && shorter[i] == '.';
                assert(tail[i] == '.');
            }
        }
        lemma_after_last_dot(stem, shorter);
        assert(name.drop_last() =~= stem.push('.') + shorter);
        assert(shorter.push(tail.last()) =~= tail);
    }
}

/// There is no extension where there is no final name, or where it has no dot but a first one.
pub proof fn law_no_extension_without_a_dot(path: Seq<char>)
    requires
        parts(path).len() > 0 ==> {
            ||| parts(path).last() !is Name
            ||| forall|i: int| 1 <= i < parts(path).last()->Name_0.len() ==> #[trigger] parts(
                path,
            ).last()->Name_0[i] != '.'
        },
    ensures
        extension_of(path) is None,
{
    if parts(path).len() > 0 && parts(path).last() is Name {
        lemma_no_last_dot(parts(path).last()->Name_0);
    }
}

proof fn lemma_no_last_dot(name: Seq<char>)
    requires
        forall|i: int| 1 <= i < name.len() ==> #[trigger] name[i] != '.',
    ensures
        after_last_dot(name) is None,
    decreases name.len(),
{
    if name.len() > 1 {
        assert(name[name.len() - 1] != '.');
        lemma_no_last_dot(name.drop_last());
    }
}

/// Without its last character a path has no more components than with it.
proof fn lemma_components_grow(path: Seq<char>)
    requires
        path.len() > 0,
    ensures
        parts(path.drop_last()).len() <= parts(path).len(),
{
    let shorter = path.drop_last();
    let before = pieces(shorter);
    lemma_pieces_not_empty(shorter);
    if path.last() == '/' {
        assert(pieces(path).drop_last() =~= before);
        assert(body(pieces(path)) =~= body(before));
        if shorter.len() == 0 {
            lemma_pieces_without_slash(shorter);
            law_components_of_a_name(shorter);
        } else {
            assert(shorter[0] == path[0]);
            if shorter.len() > 1 {
                assert(shorter[1] == path[1]);
            }
        }
    } else if !path.contains('/') {
        assert(!shorter.contains('/')) by {
            if shorter.contains('/') {
                let i = choose|i: int| 0 <= i < shorter.len() && shorter[i] == '/';
                assert(path[i] == '/');
            }
        }
        law_components_of_a_name(path);
        law_components_of_a_name(shorter);
    } else {
        let at = choose|i: int| 0 <= i < path.len() && path[i] == '/';
        assert(shorter[at] == '/');
        assert(pieces(path).drop_last() =~= before.drop_last());
        assert(pieces(path).last() == before.last().push(path.last()));
        assert(shorter[0] == path[0]);
        if shorter.len() > 1 {
            assert(shorter[1] == path[1]);
        }
    }
}

proof fn lemma_components_of_a_prefix(path: Seq<char>, k: int)
    requires
        0 <= k <= path.len(),
    ensures
        parts(path.take(k)).len() <= parts(path).len(),
    decreases path.len() - k,
{
    if k < path.len() {
        lemma_components_of_a_prefix(path, k + 1);
        lemma_components_grow(path.take(k + 1));
        assert(path.take(k + 1).drop_last() =~= path.take(k));
    } else {
        assert(path.take(k) =~= path);
    }
}

proof fn lemma_components_behind_a_slash(head: Seq<char>, name: Seq<char>)
    requires
        head.len() > 0,
        head.last() == '/',
        !name.contains('/'),
    ensures
        parts(head + name) == parts(head) + part_of(name),
{
    let base = head.drop_last();
    let whole = head + name;
    lemma_dots(name);
    assert(base.push('/') =~= head);
    if base.len() > 0 {
        law_components_further_down(base, name);
        law_components_further_down(base, Seq::empty());
        assert(base.push('/') + Seq::<char>::empty() =~= head);
    } else {
        assert(head =~= seq!['/']);
        law_components_of_an_absolute_path(name);
        lemma_root_parts();
    }
    assert(parts(whole) =~= parts(head) + part_of(name));
}

/// The start of a name is another component than the name, or none.
proof fn lemma_start_of_a_name_differs(head: Seq<char>, name: Seq<char>, n: int)
    requires
        head.len() == 0 || head.last() == '/',
        !name.contains('/'),
        name != seq!['.'],
        0 < n < name.len(),
    ensures
        parts(head + name.take(n)) != parts(head + name),
{
    let piece = name.take(n);
    assert(!piece.contains('/')) by {
        if piece.contains('/') {
            let i = choose|i: int| 0 <= i < piece.len() && piece[i] == '/';
            assert(name[i] == '/');
        }
    }
    assert(piece.len() != name.len());
    if head.len() == 0 {
        assert(head + piece =~= piece);
        assert(head + name =~= name);
        law_components_of_a_name(piece);
        law_components_of_a_name(name);
        assert(parts(piece)[0] != parts(name)[0]);
    } else {
        lemma_components_behind_a_slash(head, piece);
        lemma_components_behind_a_slash(head, name);
        lemma_dots(piece);
        lemma_dots(name);
        let at = parts(head).len() as int;
        assert(parts(head + name)[at] == part_of(name)[0]);
        if part_of(piece).len() > 0 {
            assert(parts(head + piece)[at] == part_of(piece)[0]);
        }
    }
}

/// Nothing can be taken off the end of a path that ends in a name without taking a component with
/// it.
proof fn lemma_named_path_is_shortest(head: Seq<char>, name: Seq<char>, k: int)
    requires
        head.len() == 0 || head.last() == '/',
        !name.contains('/'),
        name.len() > 0,
        name != seq!['.'],
        0 <= k < head.len() + name.len(),
    ensures
        parts((head + name).take(k)) != parts(head + name),
{
    let start = (head + name).take(k);
    if k > head.len() {
        assert(start =~= head + name.take(k - head.len()));
        lemma_start_of_a_name_differs(head, name, k - head.len());
    } else if head.len() == 0 {
        assert(start =~= Seq::empty());
        assert(head + name =~= name);
        law_components_of_a_name(start);
        law_components_of_a_name(name);
    } else {
        assert(start =~= head.take(k));
        lemma_components_behind_a_slash(head, name);
        lemma_dots(name);
        lemma_components_of_a_prefix(head, k);
    }
}

/// Nothing can be taken off the end of a trimmed path without taking a component with it.
proof fn lemma_trimmed_is_shortest(path: Seq<char>, k: int)
    requires
        0 <= k < trimmed(path).len(),
    ensures
        parts(trimmed(path).take(k)) != parts(trimmed(path)),
{
    let end = trimmed(path);
    lemma_trimmed(path);
    if end.len() <= leading(end).len() {
        let start = end.take(k);
        assert(start =~= Seq::empty());
        law_components_of_a_name(start);
        assert(parts(end).len() >= 1);
    } else {
        let head = before_last_piece(end);
        let tail = end.skip(head.len() as int);
        lemma_before_last_piece(end);
        assert(end =~= head + tail);
        assert(tail.len() > 0) by {
            if tail.len() == 0 {
                assert(head =~= end);
            }
        }
        assert(tail.last() == end.last());
        assert(tail != seq!['.']) by {
            if tail == seq!['.'] {
                if head.len() > 0 {
                    assert(end[end.len() - 2] == head.last());
                } else {
                    assert(end =~= tail);
                }
            }
        }
        lemma_named_path_is_shortest(head, tail, k);
    }
}

/// One component up is the shortest start of the text that has all components but the last. There
/// is no such way from the root or from the empty path.
pub proof fn law_parent_is_the_shortest_start(path: Seq<char>)
    ensures
        parent(path) is None <==> parts(path).len() == 0 || parts(path).last() is Root,
        parent(path) matches Some(up) ==> {
            &&& up.is_prefix_of(path)
            &&& parts(up) == parts(path).drop_last()
            &&& forall|k: int|
                0 <= k < up.len() ==> parts(#[trigger] path.take(k)) != parts(path).drop_last()
        },
{
    if parts(path).len() > 0 && parts(path).last() !is Root {
        lemma_parts_of_parent(path);
        lemma_parent_is_a_prefix(path);
        let up = parent(path)->0;
        let head = before_last_piece(trimmed(path));
        assert forall|k: int| 0 <= k < up.len() implies parts(#[trigger] path.take(k)) != parts(
            path,
        ).drop_last() by {
            lemma_trimmed_is_shortest(head, k);
            assert(path.take(k) =~= up.take(k)) by {
                assert forall|i: int| 0 <= i < k implies path[i] == up[i] by {
                    assert(path.subrange(0, up.len() as int)[i] == path[i]);
                }
            }
        }
    }
}

/// Every path is within itself.
pub proof fn law_within_is_reflexive(path: Seq<char>)
    ensures
        within(path, path),
{
    assert(parts(path) =~= parts(path).subrange(0, parts(path).len() as int));
}

/// What is within a directory that is within another is within that other one too.
pub proof fn law_within_is_transitive(outer: Seq<char>, dir: Seq<char>, path: Seq<char>)
    requires
        within(outer, dir),
        within(dir, path),
    ensures
        within(outer, path),
{
    assert(parts(outer) =~= parts(path).subrange(0, parts(outer).len() as int)) by {
        assert forall|i: int| 0 <= i < parts(outer).len() implies parts(outer)[i] == parts(
            path,
        )[i] by {
            assert(parts(dir).subrange(0, parts(outer).len() as int)[i] == parts(dir)[i]);
            assert(parts(path).subrange(0, parts(dir).len() as int)[i] == parts(path)[i]);
        }
    }
}

/// A name that stands for itself as a path component: it holds no slash and is not empty, `.`
/// or `..`.
pub open spec fn plain_name(name: Seq<char>) -> bool {
    &&& !name.contains('/')
    &&& name.len() > 0
    &&& !is_dot(name)
    &&& !is_dot_dot(name)
}

pub proof fn lemma_pieces_without_slash(name: Seq<char>)
    requires
        !name.contains('/'),
    ensures
        pieces(name) == seq![name],
    decreases name.len(),
{
    if name.len() == 0 {
        assert(name =~= Seq::empty());
    } else {
        assert(name.last() != '/') by {
            assert(name[name.len() - 1] == name.last());
        }
        assert(!name.drop_last().contains('/')) by {
            if name.drop_last().contains('/') {
                let i = choose|i: int| 0 <= i < name.len() - 1 && name.drop_last()[i] == '/';
                assert(name[i] == '/');
            }
        }
        lemma_pieces_without_slash(name.drop_last());
        assert(name.drop_last().push(name.last()) =~= name);
        assert(pieces(name) =~= seq![name]);
    }
}

/// Containment goes by whole components: of two entries of a directory, one holds the other
/// only if they are one and the same, whatever characters their names share.
pub proof fn law_within_is_component_wise(base: Seq<char>, x: Seq<char>, y: Seq<char>)
    requires
        base.len() > 0,
        plain_name(x),
        plain_name(y),
    ensures
        within(joined(base, x), joined(base, y)) <==> x == y,
{
    lemma_pieces_without_slash(x);
    lemma_pieces_without_slash(y);
    assert(x[0] != '/' && y[0] != '/');
    lemma_parts_of_join(base, x);
    lemma_parts_of_join(base, y);
    reveal_with_fuel(body, 2);
    assert(body(seq![x]) =~= seq![Part::Name(x)]);
    assert(body(seq![y]) =~= seq![Part::Name(y)]);
    let n = parts(base).len() as int;
    assert(parts(joined(base, x))[n] == Part::Name(x));
    assert(parts(joined(base, y))[n] == Part::Name(y));
    assert(parts(joined(base, y)).subrange(0, n + 1) =~= parts(joined(base, y)));
}

/// `path` is absolute and spelled plainly: without repeated or trailing slashes, and without `.`
/// segments.
pub open spec fn plainly_spelled(path: Seq<char>) -> bool {
    ||| path == seq!['/']
    ||| {
        &&& path.len() > 1
        &&& path[0] == '/'
        &&& forall|i: int|
            1 <= i < pieces(path).len() ==> {
                &&& (#[trigger] pieces(path)[i]).len() > 0
                &&& !is_dot(pieces(path)[i])
            }
    }
}

/// The pieces with a slash between each two of them.
spec fn glued(list: Seq<Seq<char>>) -> Seq<char>
    decreases list.len(),
{
    if list.len() == 0 {
        Seq::empty()
    } else if list.len() == 1 {
        list[0]
    } else {
        glued(list.drop_last()).push('/') + list.last()
    }
}

proof fn lemma_glued_pieces(path: Seq<char>)
    ensures
        glued(pieces(path)) == path,
    decreases path.len(),
{
    if path.len() == 0 {
        assert(path =~= Seq::empty());
    } else {
        let shorter = path.drop_last();
        let before = pieces(shorter);
        lemma_glued_pieces(shorter);
        lemma_pieces_not_empty(shorter);
        assert(shorter.push(path.last()) =~= path);
        if path.last() == '/' {
            assert(pieces(path).drop_last() =~= before);
            assert(shorter.push('/') + Seq::<char>::empty() =~= path);
        } else if before.len() == 1 {
            assert(pieces(path) =~= seq![shorter.push(path.last())]);
        } else {
            assert(pieces(path).drop_last() =~= before.drop_last());
            assert(glued(pieces(path)) =~= shorter.push(path.last()));
        }
    }
}

proof fn lemma_glued_prefix(a: Seq<Seq<char>>, b: Seq<Seq<char>>)
    requires
        1 <= a.len() < b.len(),
        a.is_prefix_of(b),
    ensures
        glued(a).is_prefix_of(glued(b)),
        glued(a).len() < glued(b).len(),
    decreases b.len(),
{
    let shorter = b.drop_last();
    if a.len() == shorter.len() {
        assert(a =~= shorter);
    } else {
        assert(a =~= shorter.subrange(0, a.len() as int)) by {
            assert(b.subrange(0, a.len() as int) =~= shorter.subrange(0, a.len() as int));
        }
        lemma_glued_prefix(a, shorter);
    }
    let head = glued(shorter);
    assert(glued(b) == head.push('/') + b.last());
    assert(glued(a) =~= glued(b).subrange(0, glued(a).len() as int)) by {
        assert(head.subrange(0, glued(a).len() as int) =~= glued(b).subrange(
            0,
            glued(a).len() as int,
        ));
    }
}

proof fn lemma_first_piece(path: Seq<char>)
    requires
        path.len() > 0,
        path[0] == '/',
    ensures
        pieces(path).len() >= 2,
        pieces(path)[0].len() == 0,
    decreases path.len(),
{
    lemma_pieces_not_empty(path.drop_last());
    if path.len() == 1 {
        assert(path.drop_last() =~= Seq::empty());
        assert(path.last() == '/');
    } else {
        assert(path.drop_last()[0] == '/');
        lemma_first_piece(path.drop_last());
    }
}

/// Where every piece after an empty first one counts, each of them is one component.
proof fn lemma_body_of_full_pieces(list: Seq<Seq<char>>)
    requires
        list.len() >= 1,
        list[0].len() == 0,
        forall|i: int|
            1 <= i < list.len() ==> (#[trigger] list[i]).len() > 0 && !is_dot(list[i]),
    ensures
        body(list).len() == list.len() - 1,
        forall|i: int| 1 <= i < list.len() ==> seq![body(list)[i - 1]] == part_of(#[trigger] list[i]),
    decreases list.len(),
{
    if list.len() == 1 {
        reveal_with_fuel(body, 2);
        assert(list.drop_last() =~= Seq::empty());
        assert(body(list) =~= Seq::empty());
    } else {
        let shorter = list.drop_last();
        lemma_body_of_full_pieces(shorter);
        assert forall|i: int| 1 <= i < list.len() implies seq![body(list)[i - 1]] == part_of(
            #[trigger] list[i],
        ) by {
            if i < list.len() - 1 {
                assert(list[i] == shorter[i]);
                assert(body(list)[i - 1] == body(shorter)[i - 1]);
            } else {
                assert(part_of(list.last()).len() == 1);
                assert(body(list)[i - 1] == part_of(list.last())[0]);
                assert(seq![body(list)[i - 1]] =~= part_of(list.last()));
            }
        }
    }
}

/// The pieces of a plainly spelled path other than the root are its components, one for one.
proof fn lemma_plain_parts(path: Seq<char>)
    requires
        plainly_spelled(path),
        path != seq!['/'],
    ensures
        pieces(path).len() >= 2,
        pieces(path)[0].len() == 0,
        parts(path).len() == pieces(path).len(),
        forall|i: int|
            1 <= i < pieces(path).len() ==> seq![parts(path)[i]] == part_of(
                #[trigger] pieces(path)[i],
            ),
{
    lemma_first_piece(path);
    lemma_body_of_full_pieces(pieces(path));
    assert forall|i: int| 1 <= i < pieces(path).len() implies seq![parts(path)[i]] == part_of(
        #[trigger] pieces(path)[i],
    ) by {
        assert(parts(path)[i] == body(pieces(path))[i - 1]);
    }
}

proof fn lemma_root_parts()
    ensures
        parts(seq!['/']) == seq![Part::Root],
{
    let root = seq!['/'];
    assert(root.drop_last() =~= Seq::<char>::empty());
    reveal_with_fuel(pieces, 2);
    reveal_with_fuel(body, 3);
    assert(pieces(root) =~= seq![Seq::empty(), Seq::empty()]);
    assert(body(pieces(root)) =~= Seq::empty());
    assert(parts(root) =~= seq![Part::Root]);
}

/// Of two plainly spelled paths, one of which contains the other, the outer one is the start of
/// the inner one's text.
proof fn lemma_plain_prefix(outer: Seq<char>, inner: Seq<char>)
    requires
        plainly_spelled(outer),
        plainly_spelled(inner),
        within(outer, inner),
    ensures
        parts(outer).len() == parts(inner).len() ==> outer == inner,
        parts(outer).len() < parts(inner).len() ==> outer.is_prefix_of(inner) && outer.len()
            < inner.len(),
{
    lemma_root_parts();
    if outer != seq!['/'] {
        lemma_plain_parts(outer);
    }
    if inner != seq!['/'] {
        lemma_plain_parts(inner);
    }
    if outer == seq!['/'] {
        if inner != seq!['/'] {
            assert(outer =~= inner.subrange(0, 1));
        }
    } else {
        let a = pieces(outer);
        let b = pieces(inner);
        assert(inner != seq!['/']);
        assert(a =~= b.subrange(0, a.len() as int)) by {
            assert forall|i: int| 0 <= i < a.len() implies a[i] == b[i] by {
                if i == 0 {
                    assert(a[i] =~= b[i]);
                } else {
                    assert(parts(outer)[i] == parts(inner).subrange(
                        0,
                        parts(outer).len() as int,
                    )[i]);
                    assert(part_of(a[i])[0] == parts(outer)[i]);
                    assert(part_of(b[i])[0] == parts(inner)[i]);
                }
            }
        }
        lemma_glued_pieces(outer);
        lemma_glued_pieces(inner);
        if a.len() == b.len() {
            assert(a =~= b);
        } else {
            lemma_glued_prefix(a, b);
        }
    }
}

/// Among the plainly spelled directories that contain a path, the longer text is the deeper
/// directory, and two of the same length are one and the same.
pub proof fn law_longer_is_deeper(a: Seq<char>, b: Seq<char>, target: Seq<char>)
    requires
        plainly_spelled(a),
        plainly_spelled(b),
        within(a, target),
        within(b, target),
    ensures
        byte_len(a) < byte_len(b) <==> parts(a).len() < parts(b).len(),
        byte_len(a) == byte_len(b) <==> a == b,
{
    if parts(a).len() <= parts(b).len() {
        lemma_longer_is_deeper(a, b, target);
    } else {
        lemma_longer_is_deeper(b, a, target);
    }
}

proof fn lemma_longer_is_deeper(outer: Seq<char>, inner: Seq<char>, target: Seq<char>)
    requires
        plainly_spelled(outer),
        plainly_spelled(inner),
        within(outer, target),
        within(inner, target),
        parts(outer).len() <= parts(inner).len(),
    ensures
        parts(outer).len() == parts(inner).len() ==> outer == inner,
        parts(outer).len() < parts(inner).len() ==> byte_len(outer) < byte_len(inner),
{
    let n = parts(outer).len() as int;
    assert(parts(outer) =~= parts(inner).subrange(0, n)) by {
        assert forall|i: int| 0 <= i < n implies parts(outer)[i] == parts(inner)[i] by {
            assert(parts(target).subrange(0, n)[i] == parts(target)[i]);
            assert(parts(target).subrange(0, parts(inner).len() as int)[i] == parts(target)[i]);
        }
    }
    lemma_plain_prefix(outer, inner);
    if parts(outer).len() < parts(inner).len() {
        let rest = inner.skip(outer.len() as int);
        assert(outer + rest =~= inner);
        lemma_byte_len_of_concat(outer, rest);
    }
}

} // verus!
