//! Paths as git writes them, with slashes on every system: their components and
//! their order.
use crate::text::{self, chars_of};
use vstd::prelude::*;

verus! {

// ------------------------------------------------------ lexicographic order

/// How two sequences compare from position `i` on: negative, zero or positive
/// like the first position at which they differ, and a prefix comes first.
pub open spec fn lex<T>(a: Seq<T>, b: Seq<T>, i: int, f: spec_fn(T, T) -> int) -> int
    decreases a.len() - i,
{
    if i >= a.len() && i >= b.len() {
        0
    } else if i >= a.len() {
        -1
    } else if i >= b.len() {
        1
    } else if f(a[i], b[i]) != 0 {
        f(a[i], b[i])
    } else {
        lex(a, b, i + 1, f)
    }
}

/// Whether a comparison is a total order: it is antisymmetric and transitive,
/// and only equal values tie.
pub open spec fn orders<T>(f: spec_fn(T, T) -> int) -> bool {
    &&& forall|x: T| #[trigger] f(x, x) == 0
    &&& forall|x: T, y: T| (#[trigger] f(x, y) < 0) == (f(y, x) > 0)
    &&& forall|x: T, y: T| #[trigger] f(x, y) == 0 ==> x == y
    &&& forall|x: T, y: T, z: T| #[trigger] f(x, y) < 0 && #[trigger] f(y, z) < 0 ==> f(x, z) < 0
}

proof fn lemma_lex_same<T>(a: Seq<T>, i: int, f: spec_fn(T, T) -> int)
    requires
        orders(f),
        0 <= i,
    ensures
        lex(a, a, i, f) == 0,
    decreases a.len() - i,
{
    if i < a.len() {
        lemma_lex_same(a, i + 1, f);
    }
}

proof fn lemma_lex_flip<T>(a: Seq<T>, b: Seq<T>, i: int, f: spec_fn(T, T) -> int)
    requires
        orders(f),
        0 <= i,
    ensures
        (lex(a, b, i, f) < 0) == (lex(b, a, i, f) > 0),
        (lex(a, b, i, f) == 0) == (lex(b, a, i, f) == 0),
    decreases a.len() - i,
{
    if i < a.len() && i < b.len() {
        assert((f(a[i], b[i]) < 0) == (f(b[i], a[i]) > 0));
        assert((f(b[i], a[i]) < 0) == (f(a[i], b[i]) > 0));
        if f(a[i], b[i]) == 0 {
            lemma_lex_flip(a, b, i + 1, f);
        }
    }
}

proof fn lemma_lex_equal<T>(a: Seq<T>, b: Seq<T>, i: int, f: spec_fn(T, T) -> int)
    requires
        orders(f),
        0 <= i <= a.len(),
        i <= b.len(),
        a.take(i) == b.take(i),
        lex(a, b, i, f) == 0,
    ensures
        a == b,
    decreases a.len() - i,
{
    if i >= a.len() {
        assert(a =~= a.take(i));
        assert(b =~= b.take(i));
    } else {
        assert(a.take(i + 1) =~= a.take(i).push(a[i]));
        assert(b.take(i + 1) =~= b.take(i).push(b[i]));
        lemma_lex_equal(a, b, i + 1, f);
    }
}

proof fn lemma_lex_chain<T>(a: Seq<T>, b: Seq<T>, c: Seq<T>, i: int, f: spec_fn(T, T) -> int)
    requires
        orders(f),
        0 <= i,
        lex(a, b, i, f) < 0,
        lex(b, c, i, f) < 0,
    ensures
        lex(a, c, i, f) < 0,
    decreases a.len() - i,
{
    if i < a.len() && i < b.len() && i < c.len() {
        if f(a[i], b[i]) == 0 && f(b[i], c[i]) == 0 {
            lemma_lex_chain(a, b, c, i + 1, f);
        } else if f(a[i], b[i]) < 0 && f(b[i], c[i]) < 0 {
            assert(f(a[i], c[i]) < 0);
        }
    }
}

/// The lexicographic order of a total order is one too.
pub proof fn lemma_lex_orders<T>(f: spec_fn(T, T) -> int)
    requires
        orders(f),
    ensures
        orders(|a: Seq<T>, b: Seq<T>| lex(a, b, 0, f)),
{
    let g = |a: Seq<T>, b: Seq<T>| lex(a, b, 0, f);
    assert forall|x: Seq<T>| #[trigger] g(x, x) == 0 by {
        lemma_lex_same(x, 0, f);
    }
    assert forall|x: Seq<T>, y: Seq<T>| (#[trigger] g(x, y) < 0) == (g(y, x) > 0) by {
        lemma_lex_flip(x, y, 0, f);
    }
    assert forall|x: Seq<T>, y: Seq<T>| #[trigger] g(x, y) == 0 implies x == y by {
        assert(x.take(0) =~= y.take(0));
        lemma_lex_equal(x, y, 0, f);
    }
    assert forall|x: Seq<T>, y: Seq<T>, z: Seq<T>| #[trigger]
        g(x, y) < 0 && #[trigger] g(y, z) < 0 implies g(x, z) < 0 by {
        lemma_lex_chain(x, y, z, 0, f);
    }
}

// --------------------------------------------------------------- components

/// A component of a path.
pub enum Part {
    /// the root, which starts an absolute path
    Root,
    /// the current directory, at the start of a relative path
    Here,
    /// the parent directory
    Up,
    Name(Seq<char>),
}

/// The component that a piece between separators stands for.
pub open spec fn part_of(piece: Seq<char>, first: bool) -> Option<Part> {
    if piece.len() == 0 {
        None
    } else if piece == seq!['.'] {
        if first {
            Some(Part::Here)
        } else {
            None
        }
    } else if piece == seq!['.', '.'] {
        Some(Part::Up)
    } else {
        Some(Part::Name(piece))
    }
}

pub open spec fn parts_of(pieces: Seq<Seq<char>>) -> Seq<Part>
    decreases pieces.len(),
{
    if pieces.len() == 0 {
        Seq::empty()
    } else {
        let rest = parts_of(pieces.drop_last());
        match part_of(pieces.last(), pieces.len() == 1) {
            Some(part) => rest.push(part),
            None => rest,
        }
    }
}

/// The components of a path: repeated and trailing separators do not count,
/// nor does a dot that is not at the start.
pub open spec fn parts(path: Seq<char>) -> Seq<Part> {
    let named = parts_of(text::split(path, '/'));
    if path.len() > 0 && path[0] == '/' {
        seq![Part::Root] + named
    } else {
        named
    }
}

/// A component of a path.
#[derive(Debug, PartialEq, Eq)]
pub enum Component {
    Root,
    Here,
    Up,
    Name(Vec<char>),
}

impl View for Component {
    type V = Part;

    open spec fn view(&self) -> Part {
        match self {
            Component::Root => Part::Root,
            Component::Here => Part::Here,
            Component::Up => Part::Up,
            Component::Name(s) => Part::Name(s@),
        }
    }
}

fn component_of(chars: &Vec<char>, from: usize, to: usize, first: bool) -> (r: Option<Component>)
    requires
        from <= to <= chars@.len(),
    ensures
        match r {
            Some(c) => part_of(chars@.subrange(from as int, to as int), first) == Some(c@),
            None => part_of(chars@.subrange(from as int, to as int), first) is None,
        },
{
    let ghost piece = chars@.subrange(from as int, to as int);
    if from == to {
        return None;
    }
    if to - from == 1 && chars[from] == '.' {
        assert(piece =~= seq!['.']);
        return if first {
            Some(Component::Here)
        } else {
            None
        };
    }
    if to - from == 2 && chars[from] == '.' && chars[from + 1] == '.' {
        assert(piece =~= seq!['.', '.']);
        assert(piece[1] == '.');
        assert(seq!['.'].len() == 1);
        return Some(Component::Up);
    }
    proof {
        assert(piece[0] == chars@[from as int]);
        if piece == seq!['.'] {
            assert(piece.len() == 1 && piece[0] == '.');
        }
        if piece == seq!['.', '.'] {
            assert(piece.len() == 2 && piece[0] == '.' && piece[1] == '.');
            assert(piece[1] == chars@[from + 1]);
        }
    }
    let mut name: Vec<char> = Vec::new();
    for i in from..to
        invariant
            from <= to <= chars@.len(),
            name@ =~= chars@.subrange(from as int, i as int),
    {
        name.push(chars[i]);
    }
    assert(name@ =~= piece);
    Some(Component::Name(name))
}

/// The components of a path.
pub fn components(path: &str) -> (r: Vec<Component>)
    ensures
        text::views(r@) == parts(path@),
{
    let chars = chars_of(path);
    let ghost s = path@;
    let n: usize = chars.len();
    let mut out: Vec<Component> = Vec::new();
    let ghost root: Seq<Part> = if s.len() > 0 && s[0] == '/' {
        seq![Part::Root]
    } else {
        Seq::empty()
    };
    if n > 0 && chars[0] == '/' {
        out.push(Component::Root);
    }
    assert(text::views(out@) =~= root);
    let mut start: usize = 0;
    let mut first = true;
    proof {
        assert(s.take(0) =~= Seq::empty());
        assert(text::split(s.take(0), '/').drop_last() =~= Seq::empty());
        assert(s.subrange(0, 0) =~= Seq::empty());
        assert(root + parts_of(Seq::empty()) =~= root);
    }
    for i in 0..n
        invariant
            chars@ == s,
            n == s.len(),
            start <= i,
            text::split(s.take(i as int), '/').len() > 0,
            first == (text::split(s.take(i as int), '/').len() == 1),
            text::split(s.take(i as int), '/').last() == s.subrange(start as int, i as int),
            text::views(out@) == root + parts_of(
                text::split(s.take(i as int), '/').drop_last(),
            ),
    {
        let ghost whole = text::split(s.take(i as int), '/');
        let ghost next = text::split(s.take(i + 1), '/');
        assert(s.take(i + 1).drop_last() =~= s.take(i as int));
        if chars[i] == '/' {
            let ghost before = text::views(out@);
            match component_of(&chars, start, i, first) {
                Some(c) => {
                    proof {
                        text::lemma_views_push(out@, c);
                    }
                    out.push(c);
                },
                None => {},
            }
            start = i + 1;
            first = false;
            proof {
                assert(next.drop_last() =~= whole);
                assert(s.subrange(start as int, i + 1) =~= Seq::empty());
                assert(text::views(out@) =~= root + parts_of(whole));
            }
        } else {
            assert(next.drop_last() =~= whole.drop_last());
            assert(s.subrange(start as int, i + 1) =~= s.subrange(start as int, i as int).push(
                s[i as int],
            ));
        }
    }
    assert(s.take(n as int) =~= s);
    match component_of(&chars, start, n, first) {
        Some(c) => {
            proof {
                text::lemma_views_push(out@, c);
            }
            out.push(c);
        },
        None => {},
    }
    assert(text::views(out@) =~= parts(s));
    out
}

// -------------------------------------------------------------------- order

pub open spec fn char_order(a: char, b: char) -> int {
    if a < b {
        -1
    } else if a > b {
        1
    } else {
        0
    }
}

pub open spec fn text_order(a: Seq<char>, b: Seq<char>) -> int {
    lex(a, b, 0, |x: char, y: char| char_order(x, y))
}

pub open spec fn rank(p: Part) -> int {
    match p {
        Part::Root => 0,
        Part::Here => 1,
        Part::Up => 2,
        Part::Name(_) => 3,
    }
}

pub open spec fn part_order(a: Part, b: Part) -> int {
    match (a, b) {
        (Part::Name(x), Part::Name(y)) => text_order(x, y),
        _ => rank(a) - rank(b),
    }
}

/// The order of paths: by components, from left to right.
pub open spec fn path_order(a: Seq<char>, b: Seq<char>) -> int {
    lex(parts(a), parts(b), 0, |x: Part, y: Part| part_order(x, y))
}

proof fn lemma_text_orders()
    ensures
        orders(|a: Seq<char>, b: Seq<char>| text_order(a, b)),
{
    let f = |x: char, y: char| char_order(x, y);
    assert(orders(f));
    lemma_lex_orders(f);
    let g = |a: Seq<char>, b: Seq<char>| text_order(a, b);
    let h = |a: Seq<char>, b: Seq<char>| lex(a, b, 0, f);
    assert(g =~= h);
}

pub proof fn lemma_part_orders()
    ensures
        orders(|x: Part, y: Part| part_order(x, y)),
{
    lemma_text_orders();
    let t = |a: Seq<char>, b: Seq<char>| text_order(a, b);
    let f = |x: Part, y: Part| part_order(x, y);
    assert forall|x: Part| #[trigger] f(x, x) == 0 by {
        if let Part::Name(a) = x {
            assert(t(a, a) == 0);
        }
    }
    assert forall|x: Part, y: Part| (#[trigger] f(x, y) < 0) == (f(y, x) > 0) by {
        if let (Part::Name(a), Part::Name(b)) = (x, y) {
            assert((t(a, b) < 0) == (t(b, a) > 0));
        }
    }
    assert forall|x: Part, y: Part| #[trigger] f(x, y) == 0 implies x == y by {
        if let (Part::Name(a), Part::Name(b)) = (x, y) {
            assert(t(a, b) == 0 ==> a == b);
        }
    }
    assert forall|x: Part, y: Part, z: Part| #[trigger]
        f(x, y) < 0 && #[trigger] f(y, z) < 0 implies f(x, z) < 0 by {
        if let (Part::Name(a), Part::Name(b)) = (x, y) {
            if let Part::Name(c) = z {
                assert(t(a, b) < 0 && t(b, c) < 0 ==> t(a, c) < 0);
            }
        }
    }
}

/// Paths are totally ordered by their components.
pub proof fn lemma_path_order(a: Seq<char>, b: Seq<char>, c: Seq<char>)
    ensures
        path_order(a, a) == 0,
        (path_order(a, b) < 0) == (path_order(b, a) > 0),
        path_order(a, b) == 0 ==> parts(a) == parts(b),
        path_order(a, b) <= 0 && path_order(b, c) <= 0 ==> path_order(a, c) <= 0,
{
    lemma_part_orders();
    let f = |x: Part, y: Part| part_order(x, y);
    lemma_lex_orders(f);
    let g = |x: Seq<Part>, y: Seq<Part>| lex(x, y, 0, f);
    assert(g(parts(a), parts(a)) == 0);
    assert((g(parts(a), parts(b)) < 0) == (g(parts(b), parts(a)) > 0));
    assert(g(parts(a), parts(b)) == 0 ==> parts(a) == parts(b));
    assert(g(parts(b), parts(c)) == 0 ==> parts(b) == parts(c));
    assert(g(parts(a), parts(b)) < 0 && g(parts(b), parts(c)) < 0 ==> g(parts(a), parts(c)) < 0);
}

/// The sign of a comparison.
pub open spec fn sign(n: int) -> int {
    if n < 0 {
        -1
    } else if n > 0 {
        1
    } else {
        0
    }
}

fn compare_texts(a: &Vec<char>, b: &Vec<char>) -> (r: i8)
    ensures
        r == sign(text_order(a@, b@)),
{
    let ghost f = |x: char, y: char| char_order(x, y);
    let mut i: usize = 0;
    while i < a.len() && i < b.len()
        invariant
            i <= a@.len(),
            i <= b@.len(),
            f == (|x: char, y: char| char_order(x, y)),
            lex(a@, b@, i as int, f) == text_order(a@, b@),
        decreases a@.len() - i,
    {
        if a[i] < b[i] {
            return -1;
        }
        if a[i] > b[i] {
            return 1;
        }
        i += 1;
    }
    if i < b.len() {
        -1
    } else if i < a.len() {
        1
    } else {
        0
    }
}

fn rank_of(c: &Component) -> (r: i8)
    ensures
        r == rank(c@),
        0 <= r <= 3,
{
    match c {
        Component::Root => 0,
        Component::Here => 1,
        Component::Up => 2,
        Component::Name(_) => 3,
    }
}

pub fn compare_parts(a: &Component, b: &Component) -> (r: i8)
    ensures
        r == sign(part_order(a@, b@)),
{
    match (a, b) {
        (Component::Name(x), Component::Name(y)) => compare_texts(x, y),
        _ => {
            let x: i8 = rank_of(a);
            let y: i8 = rank_of(b);
            if x < y {
                -1
            } else if x > y {
                1
            } else {
                0
            }
        },
    }
}

fn compare_all(a: &Vec<Component>, b: &Vec<Component>) -> (r: i8)
    ensures
        r == sign(lex(text::views(a@), text::views(b@), 0, |x: Part, y: Part| part_order(x, y))),
{
    let ghost f = |x: Part, y: Part| part_order(x, y);
    let ghost l = text::views(a@);
    let ghost m = text::views(b@);
    let mut i: usize = 0;
    while i < a.len() && i < b.len()
        invariant
            i <= a@.len(),
            i <= b@.len(),
            l == text::views(a@),
            m == text::views(b@),
            f == (|x: Part, y: Part| part_order(x, y)),
            lex(l, m, i as int, f) == lex(l, m, 0, f),
        decreases a@.len() - i,
    {
        let c: i8 = compare_parts(&a[i], &b[i]);
        if c != 0 {
            return c;
        }
        i += 1;
    }
    if i < b.len() {
        -1
    } else if i < a.len() {
        1
    } else {
        0
    }
}

/// Compare two paths by their components: negative, zero or positive.
pub fn compare_paths(a: &str, b: &str) -> (r: i8)
    ensures
        r == sign(path_order(a@, b@)),
{
    compare_all(&components(a), &components(b))
}

/// A file in a folder.
pub open spec fn joined_path(dir: Seq<char>, name: Seq<char>) -> Seq<char> {
    if name.len() > 0 && name[0] == '/' {
        name
    } else if dir.len() == 0 || dir.last() == '/' {
        dir + name
    } else {
        dir + "/"@ + name
    }
}

/// A file in a folder; an absolute path stays what it is.
pub fn join_path(dir: &str, name: &str) -> (r: String)
    ensures
        r@ == joined_path(dir@, name@),
{
    let d = text::chars_of(dir);
    let n = text::chars_of(name);
    if n.len() > 0 && n[0] == '/' {
        name.to_owned()
    } else if d.len() == 0 || d[d.len() - 1] == '/' {
        text::join2(dir, name)
    } else {
        text::join3(dir, "/", name)
    }
}

/// A file of a working directory, or the path as it is where there is none.
pub fn absolute_path(work_dir: Option<&str>, relative: &str) -> (r: String)
    ensures
        r@ == match work_dir {
            Some(dir) => joined_path(dir@, relative@),
            None => relative@,
        },
{
    match work_dir {
        Some(dir) => join_path(dir, relative),
        None => relative.to_owned(),
    }
}

/// Whether two paths have the same components.
pub fn same_path(a: &str, b: &str) -> (r: bool)
    ensures
        r == (parts(a@) == parts(b@)),
{
    proof {
        lemma_path_order(a@, b@, b@);
        lemma_path_order(b@, b@, b@);
    }
    compare_paths(a, b) == 0
}

/// The name of the file that a path leads to, unless it ends elsewhere.
pub open spec fn name_of(path: Seq<char>) -> Option<Seq<char>> {
    let all = parts(path);
    if all.len() > 0 {
        match all.last() {
            Part::Name(name) => Some(name),
            _ => None,
        }
    } else {
        None
    }
}

/// The name of the file that a path leads to.
pub fn file_name(path: &str) -> (r: Option<String>)
    ensures
        match r {
            Some(name) => name_of(path@) == Some(name@),
            None => name_of(path@) is None,
        },
{
    let all = components(path);
    let n: usize = all.len();
    assert(text::views(all@).len() == n);
    if n == 0 {
        return None;
    }
    assert(text::views(all@)[n - 1] == all@[n - 1]@);
    match &all[n - 1] {
        Component::Name(name) => Some(text::string_of(name)),
        _ => None,
    }
}

/// Where a name has its last dot, or less than zero.
pub open spec fn last_dot(name: Seq<char>) -> int
    decreases name.len(),
{
    if name.len() == 0 {
        -1
    } else if name.last() == '.' {
        name.len() - 1
    } else {
        last_dot(name.drop_last())
    }
}

/// What follows the last dot in the name of the file that a path leads to. A
/// dot at the start of the name does not count.
pub open spec fn extension_of(path: Seq<char>) -> Option<Seq<char>> {
    match name_of(path) {
        Some(name) => if last_dot(name) > 0 {
            Some(name.skip(last_dot(name) + 1))
        } else {
            None
        },
        None => None,
    }
}

/// The extension of the file that a path leads to.
pub fn extension(path: &str) -> (r: Option<String>)
    ensures
        match r {
            Some(extension) => extension_of(path@) == Some(extension@),
            None => extension_of(path@) is None,
        },
{
    let name = match file_name(path) {
        Some(name) => text::chars_of(name.as_str()),
        None => {
            return None;
        },
    };
    let mut n: usize = name.len();
    assert(name@.take(n as int) =~= name@);
    while n > 0
        invariant
            n <= name@.len(),
            name_of(path@) == Some(name@),
            last_dot(name@.take(n as int)) == last_dot(name@),
        decreases n,
    {
        assert(name@.take(n as int).drop_last() =~= name@.take(n - 1));
        assert(name@.take(n as int).last() == name@[n - 1]);
        if name[n - 1] == '.' {
            if n == 1 {
                return None;
            }
            let end: usize = name.len();
            let r = text::string_of_range(&name, n, end);
            assert(r@ =~= name@.skip(n as int));
            return Some(r);
        }
        n -= 1;
    }
    None
}

// ----------------------------------------------------------------------- laws

/// Whether a text can be the name of a file.
pub open spec fn is_name(name: Seq<char>) -> bool {
    &&& name.len() > 0
    &&& forall|i: int| 0 <= i < name.len() ==> #[trigger] name[i] != '/'
    &&& name != seq!['.']
    &&& name != seq!['.', '.']
}

/// The components of a path are those of its folder and its name, and the name is
/// what the path leads to.
pub proof fn lemma_paths_end_in_their_name(dir: Seq<char>, name: Seq<char>)
    requires
        is_name(name),
    ensures
        dir.len() > 0 ==> parts(dir + seq!['/'] + name) == parts(dir).push(Part::Name(name)),
        name_of(dir + seq!['/'] + name) == Some(name),
        parts(name) == seq![Part::Name(name)],
        name_of(name) == Some(name),
{
    let path = dir + seq!['/'] + name;
    assert(path =~= dir.push('/') + name);
    text::lemma_split_behind(dir, '/', name);
    text::lemma_split_nonempty(dir, '/');
    let pieces = text::split(path, '/');
    assert(pieces.drop_last() =~= text::split(dir, '/'));
    assert(part_of(name, false) == Some(Part::Name(name)));
    assert(path[0] == if dir.len() > 0 {
        dir[0]
    } else {
        '/'
    });
    if dir.len() > 0 && dir[0] == '/' {
        assert(seq![Part::Root] + parts_of(text::split(dir, '/')).push(Part::Name(name)) =~= (
        seq![Part::Root] + parts_of(text::split(dir, '/'))).push(Part::Name(name)));
    }
    text::lemma_split_single(name, '/');
    assert(seq![name].drop_last() =~= Seq::<Seq<char>>::empty());
    reveal_with_fuel(parts_of, 2);
    assert(parts_of(seq![name]) =~= seq![Part::Name(name)]);
}

/// The extension is what stands behind the last dot of the name; a name that starts
/// with its only dot, or has none, has no extension.
pub proof fn lemma_extensions(dir: Seq<char>, stem: Seq<char>, extension: Seq<char>)
    requires
        stem.len() > 0,
        is_name(stem + seq!['.'] + extension),
        forall|i: int| 0 <= i < extension.len() ==> #[trigger] extension[i] != '.',
    ensures
        extension_of(stem + seq!['.'] + extension) == Some(extension),
        extension_of(dir + seq!['/'] + (stem + seq!['.'] + extension)) == Some(extension),
{
    let name = stem + seq!['.'] + extension;
    lemma_paths_end_in_their_name(dir, name);
    lemma_last_dot(stem, extension);
    assert(name.skip(stem.len() as int + 1) =~= extension);
}

proof fn lemma_last_dot(stem: Seq<char>, rest: Seq<char>)
    requires
        forall|i: int| 0 <= i < rest.len() ==> #[trigger] rest[i] != '.',
    ensures
        last_dot(stem + seq!['.'] + rest) == stem.len(),
    decreases rest.len(),
{
    let name = stem + seq!['.'] + rest;
    if rest.len() > 0 {
        lemma_last_dot(stem, rest.drop_last());
        assert(name.drop_last() =~= stem + seq!['.'] + rest.drop_last());
        assert(name.last() == rest.last());
    } else {
        assert(name.last() == '.');
    }
}

/// A hidden file and a file without a dot have no extension.
pub proof fn lemma_no_extension(name: Seq<char>)
    requires
        is_name(name),
        forall|i: int| 1 <= i < name.len() ==> #[trigger] name[i] != '.',
    ensures
        extension_of(name) is None,
{
    lemma_paths_end_in_their_name(seq!['x'], name);
    lemma_dots_at_the_start(name);
}

proof fn lemma_dots_at_the_start(name: Seq<char>)
    requires
        forall|i: int| 1 <= i < name.len() ==> #[trigger] name[i] != '.',
    ensures
        last_dot(name) <= 0,
    decreases name.len(),
{
    if name.len() > 1 {
        assert(name.last() != '.');
        lemma_dots_at_the_start(name.drop_last());
    } else if name.len() == 1 {
        assert(name.drop_last().len() == 0);
        reveal_with_fuel(last_dot, 2);
    }
}

proof fn lemma_lex_common<T>(
    common: Seq<T>,
    a: Seq<T>,
    b: Seq<T>,
    i: int,
    f: spec_fn(T, T) -> int,
)
    requires
        orders(f),
        0 <= i <= common.len(),
    ensures
        lex(common + a, common + b, i, f) == lex(a, b, 0, f),
    decreases common.len() - i,
{
    if i < common.len() {
        assert((common + a)[i] == common[i] && (common + b)[i] == common[i]);
        assert(f(common[i], common[i]) == 0);
        lemma_lex_common(common, a, b, i + 1, f);
    } else {
        lemma_lex_tail(common, a, b, 0, f);
    }
}

proof fn lemma_lex_tail<T>(
    common: Seq<T>,
    a: Seq<T>,
    b: Seq<T>,
    k: int,
    f: spec_fn(T, T) -> int,
)
    requires
        0 <= k,
    ensures
        lex(common + a, common + b, common.len() + k, f) == lex(a, b, k, f),
    decreases a.len() - k,
{
    let n = common.len() as int;
    if k < a.len() && k < b.len() {
        assert((common + a)[n + k] == a[k] && (common + b)[n + k] == b[k]);
        lemma_lex_tail(common, a, b, k + 1, f);
    }
}

/// Texts are ordered like words: behind what they have in common, the first
/// character decides, and nothing comes before anything.
pub proof fn lemma_words_are_ordered(
    common: Seq<char>,
    a: char,
    b: char,
    x: Seq<char>,
    y: Seq<char>,
)
    ensures
        a < b ==> text_order(common + seq![a] + x, common + seq![b] + y) < 0,
        text_order(common, common + seq![a] + x) < 0,
        text_order(common, common) == 0,
{
    let f = |p: char, q: char| char_order(p, q);
    lemma_text_orders();
    assert(orders(f));
    let (p, q) = (seq![a] + x, seq![b] + y);
    assert(common + seq![a] + x =~= common + p);
    assert(common + seq![b] + y =~= common + q);
    lemma_lex_common(common, p, q, 0, f);
    assert(p[0] == a && q[0] == b);
    lemma_lex_common(common, Seq::empty(), p, 0, f);
    assert(common + Seq::<char>::empty() =~= common);
    lemma_lex_same(common, 0, f);
}

/// Within a folder files are ordered by their names, and a folder comes before what
/// lies in it.
pub proof fn lemma_names_order_a_folder(dir: Seq<char>, a: Seq<char>, b: Seq<char>)
    requires
        dir.len() > 0,
        is_name(a),
        is_name(b),
    ensures
        path_order(dir + seq!['/'] + a, dir + seq!['/'] + b) == text_order(a, b),
        path_order(dir, dir + seq!['/'] + a) < 0,
        path_order(a, b) == text_order(a, b),
{
    let f = |x: Part, y: Part| part_order(x, y);
    lemma_part_orders();
    assert(orders(f));
    lemma_paths_end_in_their_name(dir, a);
    lemma_paths_end_in_their_name(dir, b);
    let common = parts(dir);
    let (p, q) = (seq![Part::Name(a)], seq![Part::Name(b)]);
    assert(common.push(Part::Name(a)) =~= common + p);
    assert(common.push(Part::Name(b)) =~= common + q);
    lemma_lex_common(common, p, q, 0, f);
    lemma_lex_common(common, Seq::empty(), p, 0, f);
    assert(common + Seq::<Part>::empty() =~= common);
    reveal_with_fuel(lex, 3);
    assert(f(p[0], q[0]) == text_order(a, b));
}

/// A path in a folder starts with the folder and ends in the path; one that starts
/// at the root stays what it is.
pub proof fn lemma_joined_paths(dir: Seq<char>, name: Seq<char>)
    ensures
        ({
            let path = joined_path(dir, name);
            &&& name.len() > 0 && name[0] == '/' ==> path == name
            &&& !(name.len() > 0 && name[0] == '/') ==> path.take(dir.len() as int) == dir
                && path.skip(path.len() - name.len()) == name && path.len() <= dir.len() + 1
                + name.len()
            &&& !(name.len() > 0 && name[0] == '/') && dir.len() > 0 && dir.last() != '/' ==> path
                == dir + seq!['/'] + name
        }),
{
    reveal_strlit("/");
    let path = joined_path(dir, name);
    if !(name.len() > 0 && name[0] == '/') {
        assert(path.take(dir.len() as int) =~= dir);
        assert(path.skip(path.len() - name.len()) =~= name);
        if dir.len() > 0 && dir.last() != '/' {
            assert(path =~= dir + seq!['/'] + name);
        }
    }
}

/// A separator at the end and a dot behind one do not count; two dots lead up, and
/// a dot at the start stays.
pub proof fn lemma_what_does_not_count(dir: Seq<char>)
    requires
        dir.len() > 0,
    ensures
        parts(dir + seq!['/']) == parts(dir),
        parts(dir + seq!['/', '.']) == parts(dir),
        parts(dir + seq!['/', '.', '.']) == parts(dir).push(Part::Up),
        parts(seq!['.']) == seq![Part::Here],
        parts(seq!['.', '.']) == seq![Part::Up],
        parts(seq!['/']) == seq![Part::Root],
        parts(Seq::empty()).len() == 0,
{
    let none = Seq::<char>::empty();
    let dot = seq!['.'];
    let dots = seq!['.', '.'];
    let before = text::split(dir, '/');
    text::lemma_split_nonempty(dir, '/');
    text::lemma_split_behind(dir, '/', none);
    text::lemma_split_behind(dir, '/', dot);
    text::lemma_split_behind(dir, '/', dots);
    assert(dir.push('/') + none =~= dir + seq!['/']);
    assert(dir.push('/') + dot =~= dir + seq!['/', '.']);
    assert(dir.push('/') + dots =~= dir + seq!['/', '.', '.']);
    assert(before.push(none).drop_last() =~= before);
    assert(before.push(dot).drop_last() =~= before);
    assert(before.push(dots).drop_last() =~= before);
    assert(dots.len() != dot.len());
    assert((dir + seq!['/'])[0] == dir[0]);
    assert((dir + seq!['/', '.'])[0] == dir[0]);
    assert((dir + seq!['/', '.', '.'])[0] == dir[0]);
    if dir[0] == '/' {
        assert(seq![Part::Root] + parts_of(before).push(Part::Up) =~= (seq![Part::Root] + parts_of(
            before,
        )).push(Part::Up));
    }
    text::lemma_split_single(dot, '/');
    text::lemma_split_single(dots, '/');
    text::lemma_split_single(none, '/');
    reveal_with_fuel(parts_of, 3);
    assert(seq![dot].drop_last() =~= Seq::<Seq<char>>::empty());
    assert(seq![dots].drop_last() =~= Seq::<Seq<char>>::empty());
    assert(seq![none].drop_last() =~= Seq::<Seq<char>>::empty());
    assert(parts_of(seq![dot]) =~= seq![Part::Here]);
    assert(parts_of(seq![dots]) =~= seq![Part::Up]);
    text::lemma_split_behind(none, '/', none);
    assert(none.push('/') + none =~= seq!['/']);
    assert(text::split(seq!['/'], '/') =~= seq![none, none]);
    assert(seq![none, none].drop_last() =~= seq![none]);
    assert(parts(seq!['/']) =~= seq![Part::Root]);
}

} // verus!
