//! Object keys of the archive store, and the path rules of the file-system
//! store.
use vstd::prelude::*;
use crate::text::{
    chars_of, contains_seq, has_substring, matches_at, slice_vec, string_of, trim_bounds,
    trim_chars, trim_end_set, trim_set, trim_start_set,
};

verus! {

broadcast use vstd::string::group_string_axioms;

/// Why a key or a path was refused.
#[derive(Debug, PartialEq, Eq)]
pub enum StorageError {
    /// The object key contains `..`; it holds the refused key.
    InvalidObjectKey(String),
    /// The joined path does not lie under the storage root.
    PathEscapesRoot,
}

pub open spec fn slash() -> Seq<char> {
    seq!['/']
}

/// `prefix` without surrounding slashes, followed by one `/`; empty when
/// nothing but slashes was given.
pub open spec fn normalized_prefix(prefix: Seq<char>) -> Seq<char> {
    let trimmed = trim_set(prefix, slash());
    if trimmed.len() == 0 {
        Seq::empty()
    } else {
        trimmed.push('/')
    }
}

/// The key that `object_key` builds: the bucket's normalized prefix, then the
/// file name without leading slashes.
pub open spec fn joined_key(bucket: Seq<char>, file_name: Seq<char>) -> Seq<char> {
    normalized_prefix(bucket) + trim_start_set(file_name, slash())
}

/// `..`
pub open spec fn dot_dot() -> Seq<char> {
    seq!['.', '.']
}

fn slash_set() -> (res: Vec<char>)
    ensures
        res@ == slash(),
{
    let v = vec!['/'];
    assert(v@ =~= slash());
    v
}

fn dot_dot_vec() -> (res: Vec<char>)
    ensures
        res@ == dot_dot(),
{
    let v = vec!['.', '.'];
    assert(v@ =~= dot_dot());
    v
}

fn normalize_prefix_chars(prefix: &Vec<char>) -> (res: Vec<char>)
    ensures
        res@ == normalized_prefix(prefix@),
{
    let set = slash_set();
    let mut trimmed = trim_chars(prefix, &set);
    if trimmed.len() == 0 {
        Vec::new()
    } else {
        trimmed.push('/');
        trimmed
    }
}

/// Normalizes a storage prefix: surrounding slashes are removed and a single
/// trailing slash is added; a prefix of nothing but slashes becomes empty.
pub fn normalize_prefix(prefix: &str) -> (res: String)
    ensures
        res@ == normalized_prefix(prefix@),
{
    let p = chars_of(prefix);
    let r = normalize_prefix_chars(&p);
    string_of(&r)
}

/// The object key of `file_name` in `bucket`. Refused, with the key, when the
/// key contains `..`.
pub fn object_key(bucket: &str, file_name: &str) -> (res: Result<String, StorageError>)
    ensures
        match res {
            Ok(key) => key@ == joined_key(bucket@, file_name@) && !has_substring(key@, dot_dot()),
            Err(e) => {
                &&& has_substring(joined_key(bucket@, file_name@), dot_dot())
                &&& e matches StorageError::InvalidObjectKey(k)
                &&& k@ == joined_key(bucket@, file_name@)
            },
        },
{
    let b = chars_of(bucket);
    let f = chars_of(file_name);
    let mut key = normalize_prefix_chars(&b);
    let set = slash_set();
    let (start, end) = trim_bounds(&f, &set, true, false);
    let mut i = start;
    let ghost base = key@;
    while i < end
        invariant
            start <= i <= end <= f@.len(),
            key@ == base + f@.subrange(start as int, i as int),
        decreases end - i,
    {
        key.push(f[i]);
        assert(f@.subrange(start as int, i + 1) == f@.subrange(start as int, i as int).push(f@[i as int]));
        i = i + 1;
    }
    let dd = dot_dot_vec();
    let text = string_of(&key);
    if contains_seq(&key, &dd) {
        Err(StorageError::InvalidObjectKey(text))
    } else {
        Ok(text)
    }
}

/// One component of a path, as std `Path::components` yields it (Unix rules).
pub ghost enum PathPart {
    RootDir,
    CurDir,
    ParentDir,
    Normal(Seq<char>),
}

/// std `Path::join` / `PathBuf::push` on Unix: an absolute `b` replaces `a`;
/// otherwise `b` is appended, with a `/` between when `a` is non-empty and
/// does not already end in one.
pub open spec fn path_join(a: Seq<char>, b: Seq<char>) -> Seq<char> {
    if b.len() > 0 && b[0] == '/' {
        b
    } else if a.len() > 0 && a.last() != '/' {
        a + slash() + b
    } else {
        a + b
    }
}

/// Whether a piece between slashes yields a component: empty pieces and `.`
/// (after the first position) yield none.
pub open spec fn kept_piece(piece: Seq<char>) -> bool {
    piece.len() > 0 && piece != seq!['.']
}

/// The component that a kept piece yields.
pub open spec fn piece_part(piece: Seq<char>) -> PathPart {
    if piece == dot_dot() {
        PathPart::ParentDir
    } else {
        PathPart::Normal(piece)
    }
}

/// Left-to-right scan of a path: the components of the pieces finished by a
/// `/`, and the piece after the last `/`.
pub open spec fn scan_pieces(p: Seq<char>) -> (Seq<PathPart>, Seq<char>)
    decreases p.len(),
{
    if p.len() == 0 {
        (Seq::empty(), Seq::empty())
    } else {
        let (done, cur) = scan_pieces(p.drop_last());
        if p.last() == '/' {
            (if kept_piece(cur) { done.push(piece_part(cur)) } else { done }, Seq::empty())
        } else {
            (done, cur.push(p.last()))
        }
    }
}

/// Whether a path starts with the current-directory component: it is `.` or
/// begins with `./`.
pub open spec fn leading_cur_dir(p: Seq<char>) -> bool {
    p == seq!['.'] || (p.len() >= 2 && p[0] == '.' && p[1] == '/')
}

/// The components of `p` (std `Path::components`, Unix rules): a root
/// directory for a leading `/`, a current directory for a leading `.`
/// component of a relative path, then one component for each piece between
/// slashes that is neither empty nor `.`.
pub open spec fn path_components(p: Seq<char>) -> Seq<PathPart> {
    let lead = if p.len() > 0 && p[0] == '/' {
        seq![PathPart::RootDir]
    } else if leading_cur_dir(p) {
        seq![PathPart::CurDir]
    } else {
        Seq::empty()
    };
    lead + component_body(p)
}

/// The components of the pieces of `p` between slashes, in order.
pub open spec fn component_body(p: Seq<char>) -> Seq<PathPart> {
    let (done, cur) = scan_pieces(p);
    if kept_piece(cur) {
        done.push(piece_part(cur))
    } else {
        done
    }
}

/// The text that a component adds when a path is built from it.
pub open spec fn part_text(c: PathPart) -> Seq<char> {
    match c {
        PathPart::RootDir => slash(),
        PathPart::CurDir => seq!['.'],
        PathPart::ParentDir => dot_dot(),
        PathPart::Normal(s) => s,
    }
}

/// The path built by pushing each component in turn (std
/// `FromIterator<Component> for PathBuf`).
pub open spec fn render_parts(parts: Seq<PathPart>) -> Seq<char>
    decreases parts.len(),
{
    if parts.len() == 0 {
        Seq::empty()
    } else {
        path_join(render_parts(parts.drop_last()), part_text(parts.last()))
    }
}

/// Whether the components of `base` begin the components of `p` (std
/// `Path::starts_with`).
pub open spec fn path_starts_with(p: Seq<char>, base: Seq<char>) -> bool {
    let a = path_components(base);
    let b = path_components(p);
    a.len() <= b.len() && b.take(a.len() as int) == a
}

/// The path that `safe_join` forms: `root` joined with `key`, rebuilt from
/// its components, and joined to `root` once more.
pub open spec fn joined_path(root: Seq<char>, key: Seq<char>) -> Seq<char> {
    path_join(root, render_parts(path_components(path_join(root, key))))
}

/// A path component held by the executable code.
pub enum Component {
    RootDir,
    CurDir,
    ParentDir,
    Normal(Vec<char>),
}

impl Component {
    pub open spec fn part(&self) -> PathPart {
        match self {
            Component::RootDir => PathPart::RootDir,
            Component::CurDir => PathPart::CurDir,
            Component::ParentDir => PathPart::ParentDir,
            Component::Normal(s) => PathPart::Normal(s@),
        }
    }
}

/// The components as mathematical values.
pub open spec fn parts_of(cs: Seq<Component>) -> Seq<PathPart> {
    Seq::new(cs.len(), |i: int| cs[i].part())
}

/// std `Path::join` on paths held as characters.
pub fn join_paths(a: &Vec<char>, b: &Vec<char>) -> (res: Vec<char>)
    ensures
        res@ == path_join(a@, b@),
{
    if b.len() > 0 && b[0] == '/' {
        return slice_vec(b, 0, b.len());
    }
    let mut out = slice_vec(a, 0, a.len());
    if a.len() > 0 && a[a.len() - 1] != '/' {
        out.push('/');
    }
    let ghost base = out@;
    let mut i: usize = 0;
    while i < b.len()
        invariant
            i <= b@.len(),
            out@ == base + b@.take(i as int),
        decreases b@.len() - i,
    {
        out.push(b[i]);
        assert(b@.take(i + 1) == b@.take(i as int).push(b@[i as int]));
        i = i + 1;
    }
    assert(b@.take(b@.len() as int) =~= b@);
    assert(a@.subrange(0, a@.len() as int) =~= a@);
    assert(b@.subrange(0, b@.len() as int) =~= b@);
    out
}

fn is_dot(piece: &Vec<char>) -> (res: bool)
    ensures
        res == (piece@ == seq!['.']),
{
    let r = piece.len() == 1 && piece[0] == '.';
    if r {
        assert(piece@ =~= seq!['.']);
    }
    r
}

fn piece_component(piece: Vec<char>) -> (res: Component)
    ensures
        res.part() == piece_part(piece@),
{
    if piece.len() == 2 && piece[0] == '.' && piece[1] == '.' {
        assert(piece@ =~= dot_dot());
        Component::ParentDir
    } else {
        assert(piece@ != dot_dot()) by {
            if piece@ == dot_dot() {
                assert(piece@[0] == '.');
            }
        }
        Component::Normal(piece)
    }
}

/// std `Path::components` on a path held as characters.
pub fn components_of(p: &Vec<char>) -> (res: Vec<Component>)
    ensures
        parts_of(res@) == path_components(p@),
{
    let mut out: Vec<Component> = Vec::new();
    if p.len() > 0 && p[0] == '/' {
        out.push(Component::RootDir);
    } else if (p.len() == 1 && p[0] == '.') || (p.len() >= 2 && p[0] == '.' && p[1] == '/') {
        out.push(Component::CurDir);
    }
    let ghost lead = parts_of(out@);
    proof {
        if p@.len() == 1 && p@[0] == '.' {
            assert(p@ =~= seq!['.']);
        }
        if p@ == seq!['.'] {
            assert(p@.len() == 1);
        }
    }
    let mut cur: Vec<char> = Vec::new();
    let mut i: usize = 0;
    while i < p.len()
        invariant
            i <= p@.len(),
            scan_pieces(p@.take(i as int)).1 == cur@,
            parts_of(out@) == lead + scan_pieces(p@.take(i as int)).0,
        decreases p@.len() - i,
    {
        assert(p@.take(i + 1).drop_last() =~= p@.take(i as int));
        let c = p[i];
        if c == '/' {
            let piece = cur;
            cur = Vec::new();
            if piece.len() > 0 && !is_dot(&piece) {
                let ghost old_out = out@;
                let comp = piece_component(piece);
                out.push(comp);
                assert(parts_of(out@) =~= parts_of(old_out).push(comp.part()));
            }
        } else {
            cur.push(c);
        }
        i = i + 1;
    }
    assert(p@.take(p@.len() as int) =~= p@);
    if cur.len() > 0 && !is_dot(&cur) {
        let ghost old_out = out@;
        let comp = piece_component(cur);
        out.push(comp);
        assert(parts_of(out@) =~= parts_of(old_out).push(comp.part()));
    }
    proof {
        assert(lead + component_body(p@) =~= parts_of(out@));
    }
    out
}

fn component_text(c: &Component) -> (res: Vec<char>)
    ensures
        res@ == part_text(c.part()),
{
    match c {
        Component::RootDir => {
            let v = vec!['/'];
            assert(v@ =~= slash());
            v
        },
        Component::CurDir => {
            let v = vec!['.'];
            assert(v@ =~= seq!['.']);
            v
        },
        Component::ParentDir => dot_dot_vec(),
        Component::Normal(s) => slice_vec(s, 0, s.len()),
    }
}

/// The path built from components (std `collect::<PathBuf>()`).
pub fn render_components(cs: &Vec<Component>) -> (res: Vec<char>)
    ensures
        res@ == render_parts(parts_of(cs@)),
{
    let mut out: Vec<char> = Vec::new();
    let mut i: usize = 0;
    while i < cs.len()
        invariant
            i <= cs@.len(),
            out@ == render_parts(parts_of(cs@).take(i as int)),
        decreases cs@.len() - i,
    {
        let t = component_text(&cs[i]);
        out = join_paths(&out, &t);
        assert(parts_of(cs@).take(i + 1).drop_last() =~= parts_of(cs@).take(i as int));
        i = i + 1;
    }
    assert(parts_of(cs@).take(cs@.len() as int) =~= parts_of(cs@));
    out
}

fn same_component(a: &Component, b: &Component) -> (res: bool)
    ensures
        res == (a.part() == b.part()),
{
    match (a, b) {
        (Component::RootDir, Component::RootDir) => true,
        (Component::CurDir, Component::CurDir) => true,
        (Component::ParentDir, Component::ParentDir) => true,
        (Component::Normal(x), Component::Normal(y)) => {
            if x.len() != y.len() {
                return false;
            }
            let r = matches_at(x, y, 0);
            assert(r ==> x@.subrange(0, y@.len() as int) =~= x@);
            if !r {
                assert(x@.subrange(0, y@.len() as int) =~= x@);
            }
            r
        },
        _ => false,
    }
}

/// std `Path::starts_with` on paths held as characters.
pub fn starts_with_path(p: &Vec<char>, base: &Vec<char>) -> (res: bool)
    ensures
        res == path_starts_with(p@, base@),
{
    let a = components_of(base);
    let b = components_of(p);
    if a.len() > b.len() {
        return false;
    }
    let mut i: usize = 0;
    while i < a.len()
        invariant
            a@.len() <= b@.len(),
            i <= a@.len(),
            parts_of(a@) == path_components(base@),
            parts_of(b@) == path_components(p@),
            forall|j: int| 0 <= j < i ==> a@[j].part() == b@[j].part(),
        decreases a@.len() - i,
    {
        if !same_component(&a[i], &b[i]) {
            proof {
                let pa = path_components(base@);
                let pb = path_components(p@);
                assert(pb.take(pa.len() as int)[i as int] != pa[i as int]);
                if path_starts_with(p@, base@) {
                    assert(pb.take(pa.len() as int) == pa);
                }
            }
            return false;
        }
        i = i + 1;
    }
    assert(parts_of(b@).take(a@.len() as int) =~= parts_of(a@));
    true
}

/// Joins `key` under the storage `root` as the file-system store does: the
/// joined path is rebuilt from its components and joined to `root` again;
/// refused when the result does not start with `root`, component by
/// component.
pub fn safe_join(root: &str, key: &str) -> (res: Result<String, StorageError>)
    ensures
        res is Ok <==> path_starts_with(joined_path(root@, key@), root@),
        res matches Ok(p) ==> p@ == joined_path(root@, key@),
        res matches Err(e) ==> e == StorageError::PathEscapesRoot,
{
    let r = chars_of(root);
    let k = chars_of(key);
    let joined = join_paths(&r, &k);
    let comps = components_of(&joined);
    let rebuilt = render_components(&comps);
    let full = join_paths(&r, &rebuilt);
    if starts_with_path(&full, &r) {
        Ok(string_of(&full))
    } else {
        Err(StorageError::PathEscapesRoot)
    }
}

pub(crate) proof fn lemma_trim_start_shape(s: Seq<char>, set: Seq<char>)
    ensures
        trim_start_set(s, set).len() <= s.len(),
        trim_start_set(s, set) == s.skip(s.len() - trim_start_set(s, set).len()),
        trim_start_set(s, set).len() > 0 ==> !set.contains(trim_start_set(s, set)[0]),
    decreases s.len(),
{
    if s.len() > 0 && set.contains(s[0]) {
        lemma_trim_start_shape(s.drop_first(), set);
        let t = trim_start_set(s.drop_first(), set);
        assert(s.drop_first().skip(s.drop_first().len() - t.len()) =~= s.skip(s.len() - t.len()));
    } else {
        assert(s.skip(0) =~= s);
    }
}

proof fn lemma_trim_end_shape(s: Seq<char>, set: Seq<char>)
    ensures
        trim_end_set(s, set).len() <= s.len(),
        trim_end_set(s, set) == s.take(trim_end_set(s, set).len() as int),
        trim_end_set(s, set).len() > 0 ==> !set.contains(trim_end_set(s, set).last()),
    decreases s.len(),
{
    if s.len() > 0 && set.contains(s.last()) {
        lemma_trim_end_shape(s.drop_last(), set);
        let t = trim_end_set(s.drop_last(), set);
        assert(s.drop_last().take(t.len() as int) =~= s.take(t.len() as int));
    } else {
        assert(s.take(s.len() as int) =~= s);
    }
}

proof fn lemma_trimmed_ends(s: Seq<char>, set: Seq<char>)
    ensures
        trim_set(s, set).len() > 0 ==> !set.contains(trim_set(s, set)[0]) && !set.contains(
            trim_set(s, set).last(),
        ),
{
    let a = trim_start_set(s, set);
    lemma_trim_start_shape(s, set);
    lemma_trim_end_shape(a, set);
    let b = trim_end_set(a, set);
    if b.len() > 0 {
        assert(b[0] == a[0]);
    }
}

/// A normalized prefix is empty or ends with a single `/` and does not start
/// with one; normalizing it again leaves it unchanged.
pub proof fn law_normalize_prefix_idempotent(prefix: Seq<char>)
    ensures
        normalized_prefix(prefix).len() == 0 || (normalized_prefix(prefix).last() == '/'
            && normalized_prefix(prefix)[0] != '/'),
        normalized_prefix(normalized_prefix(prefix)) == normalized_prefix(prefix),
{
    let t = trim_set(prefix, slash());
    lemma_trimmed_ends(prefix, slash());
    if t.len() == 0 {
        assert(trim_set(Seq::<char>::empty(), slash()) =~= Seq::<char>::empty());
    } else {
        let n = t.push('/');
        assert(!slash().contains(t[0]));
        assert(!slash().contains(t.last()));
        assert(slash().contains('/')) by {
            assert(slash()[0] == '/');
        }
        assert(t[0] != '/') by {
            if t[0] == '/' {
                assert(slash()[0] == t[0]);
            }
        }
        assert(trim_start_set(n, slash()) == n) by {
            assert(n[0] == t[0]);
        }
        assert(n.drop_last() =~= t);
        assert(trim_end_set(t, slash()) == t);
        assert(trim_end_set(n, slash()) == t);
        assert(trim_set(n, slash()) == t);
    }
}

/// An accepted object key lies under its bucket: it starts with the bucket's
/// normalized prefix and holds no `..`.
pub proof fn law_object_key_under_bucket(bucket: Seq<char>, file_name: Seq<char>)
    requires
        !has_substring(joined_key(bucket, file_name), dot_dot()),
    ensures
        crate::text::has_prefix(joined_key(bucket, file_name), normalized_prefix(bucket)),
{
    let k = joined_key(bucket, file_name);
    assert(k.take(normalized_prefix(bucket).len() as int) =~= normalized_prefix(bucket));
}

/// Whether a component comes from a piece of a path: a non-empty name
/// without `/` other than `.` and `..`, or `..`.
pub open spec fn is_piece_part(c: PathPart) -> bool {
    match c {
        PathPart::Normal(n) => kept_piece(n) && n != dot_dot() && !n.contains('/'),
        PathPart::ParentDir => true,
        _ => false,
    }
}

proof fn lemma_scan_pieces_shape(p: Seq<char>)
    ensures
        forall|i: int| 0 <= i < scan_pieces(p).0.len() ==> is_piece_part(#[trigger] scan_pieces(p).0[i]),
        !scan_pieces(p).1.contains('/'),
    decreases p.len(),
{
    if p.len() > 0 {
        lemma_scan_pieces_shape(p.drop_last());
        let (done, cur) = scan_pieces(p.drop_last());
        if p.last() != '/' {
            assert forall|j: int| 0 <= j < cur.push(p.last()).len() implies cur.push(p.last())[j] != '/' by {
                if j < cur.len() {
                    assert(!cur.contains('/'));
                    if cur[j] == '/' {
                        assert(cur.contains('/'));
                    }
                }
            }
        }
    }
}

proof fn lemma_component_body_shape(p: Seq<char>)
    ensures
        forall|i: int| 0 <= i < component_body(p).len() ==> is_piece_part(#[trigger] component_body(p)[i]),
{
    lemma_scan_pieces_shape(p);
}

/// Scanning `a + b`, where `a` leaves no open piece, continues with the
/// pieces of `b`.
proof fn lemma_scan_pieces_concat(a: Seq<char>, b: Seq<char>)
    requires
        scan_pieces(a).1.len() == 0,
    ensures
        scan_pieces(a + b) == (scan_pieces(a).0 + scan_pieces(b).0, scan_pieces(b).1),
    decreases b.len(),
{
    if b.len() == 0 {
        assert(a + b =~= a);
        assert(scan_pieces(a).0 + Seq::<PathPart>::empty() =~= scan_pieces(a).0);
    } else {
        lemma_scan_pieces_concat(a, b.drop_last());
        assert((a + b).drop_last() =~= a + b.drop_last());
        assert((a + b).last() == b.last());
        let (db, cb) = scan_pieces(b.drop_last());
        if b.last() == '/' && kept_piece(cb) {
            assert(scan_pieces(a).0 + db.push(piece_part(cb)) =~= (scan_pieces(a).0 + db).push(
                piece_part(cb),
            ));
        }
    }
}

/// The component body of `a + b`, where `a` ends with `/`.
proof fn lemma_component_body_concat(a: Seq<char>, b: Seq<char>)
    requires
        a.len() > 0,
        a.last() == '/',
    ensures
        component_body(a + b) == component_body(a) + component_body(b),
{
    assert(a.drop_last() + seq!['/'] =~= a);
    assert(scan_pieces(a).1.len() == 0);
    lemma_scan_pieces_concat(a, b);
    let (da, ca) = scan_pieces(a);
    assert(!kept_piece(ca));
    let (db, cb) = scan_pieces(b);
    if kept_piece(cb) {
        assert((da + db).push(piece_part(cb)) =~= da + db.push(piece_part(cb)));
    }
}

/// The component body of `r` followed by `/`.
proof fn lemma_component_body_slash(r: Seq<char>)
    ensures
        component_body(r + slash()) == component_body(r),
{
    assert((r + slash()).drop_last() =~= r);
    assert((r + slash()).last() == '/');
    let (d, c) = scan_pieces(r);
    assert(scan_pieces(r + slash()) == (if kept_piece(c) { d.push(piece_part(c)) } else { d }, Seq::<char>::empty()));
    assert(!kept_piece(Seq::<char>::empty()));
}

/// Pieces and the components they yield agree on their text.
proof fn lemma_piece_text(c: PathPart)
    requires
        is_piece_part(c),
    ensures
        kept_piece(part_text(c)),
        !part_text(c).contains('/'),
        piece_part(part_text(c)) == c,
{
    match c {
        PathPart::ParentDir => {
            assert(dot_dot() != seq!['.']) by {
                assert(dot_dot().len() != seq!['.'].len());
            }
            assert(!dot_dot().contains('/')) by {
                if dot_dot().contains('/') {
                    let j = choose|j: int| 0 <= j < dot_dot().len() && dot_dot()[j] == '/';
                    assert(dot_dot()[j] == '.');
                }
            }
        },
        _ => {},
    }
}

/// The component body of one piece that yields a component.
proof fn lemma_component_body_piece(t: Seq<char>)
    requires
        kept_piece(t),
        !t.contains('/'),
    ensures
        component_body(t) == seq![piece_part(t)],
    decreases t.len(),
{
    assert(scan_pieces(t) == (Seq::<PathPart>::empty(), t)) by {
        lemma_scan_no_slash(t);
    }
    assert(Seq::<PathPart>::empty().push(piece_part(t)) =~= seq![piece_part(t)]);
}

proof fn lemma_scan_no_slash(t: Seq<char>)
    requires
        !t.contains('/'),
    ensures
        scan_pieces(t) == (Seq::<PathPart>::empty(), t),
    decreases t.len(),
{
    if t.len() > 0 {
        assert(!t.drop_last().contains('/')) by {
            if t.drop_last().contains('/') {
                let j = choose|j: int| 0 <= j < t.drop_last().len() && t.drop_last()[j] == '/';
                assert(t[j] == '/');
            }
        }
        lemma_scan_no_slash(t.drop_last());
        assert(t.last() != '/') by {
            assert(t[t.len() - 1] == t.last());
        }
        assert(t.drop_last().push(t.last()) =~= t);
    }
}

/// A path built from the root directory and piece components has exactly
/// those components, and starts with `/`.
proof fn lemma_render_rooted(parts: Seq<PathPart>)
    requires
        forall|i: int| 0 <= i < parts.len() ==> is_piece_part(#[trigger] parts[i]),
    ensures
        render_parts(seq![PathPart::RootDir] + parts).len() > 0,
        render_parts(seq![PathPart::RootDir] + parts)[0] == '/',
        path_components(render_parts(seq![PathPart::RootDir] + parts)) == seq![PathPart::RootDir]
            + parts,
    decreases parts.len(),
{
    let full = seq![PathPart::RootDir] + parts;
    if parts.len() == 0 {
        assert(full =~= seq![PathPart::RootDir]);
        assert(full.drop_last() =~= Seq::<PathPart>::empty());
        assert(render_parts(full) == path_join(Seq::empty(), slash()));
        assert(render_parts(full) =~= slash());
        assert(scan_pieces(slash()) == (Seq::<PathPart>::empty(), Seq::<char>::empty())) by {
            assert(slash().drop_last() =~= Seq::<char>::empty());
            assert(slash().last() == '/');
            assert(!kept_piece(Seq::<char>::empty()));
            assert(scan_pieces(Seq::<char>::empty()) == (Seq::<PathPart>::empty(), Seq::<char>::empty()));
        }
        assert(component_body(slash()) =~= Seq::<PathPart>::empty());
        assert(path_components(slash()) =~= seq![PathPart::RootDir]);
    } else {
        let init = parts.drop_last();
        lemma_render_rooted(init);
        let prev = render_parts(seq![PathPart::RootDir] + init);
        assert(full.drop_last() =~= seq![PathPart::RootDir] + init);
        let x = parts.last();
        assert(is_piece_part(x)) by {
            assert(parts[parts.len() - 1] == x);
        }
        lemma_piece_text(x);
        let t = part_text(x);
        assert(t.len() > 0 && t[0] != '/') by {
            if t[0] == '/' {
                assert(t.contains('/'));
            }
        }
        assert(render_parts(full) == path_join(prev, t));
        lemma_component_body_piece(t);
        lemma_component_body_shape(prev);
        if prev.last() == '/' {
            assert(render_parts(full) == prev + t);
            lemma_component_body_concat(prev, t);
        } else {
            assert(render_parts(full) == prev + slash() + t);
            assert((prev + slash()).last() == '/');
            lemma_component_body_concat(prev + slash(), t);
            lemma_component_body_slash(prev);
        }
        let r = render_parts(full);
        assert(r[0] == '/');
        assert(path_components(prev) == seq![PathPart::RootDir] + component_body(prev));
        assert(component_body(prev) =~= (seq![PathPart::RootDir] + component_body(prev)).skip(1));
        assert(init =~= (seq![PathPart::RootDir] + init).skip(1));
        assert(component_body(prev) =~= init);
        assert(path_components(r) =~= seq![PathPart::RootDir] + component_body(r));
        assert(component_body(r) =~= init.push(x));
        assert(init.push(x) =~= parts);
    }
}

/// Under an absolute root, a key that does not start with `/` is accepted
/// by `safe_join`: its path keeps the root's components in front. (Keys
/// with `..` are accepted too; `object_key` is what refuses those.)
pub proof fn law_relative_keys_stay_under_absolute_root(root: Seq<char>, key: Seq<char>)
    requires
        root.len() > 0,
        root[0] == '/',
        !(key.len() > 0 && key[0] == '/'),
    ensures
        path_starts_with(joined_path(root, key), root),
{
    let j = path_join(root, key);
    lemma_component_body_shape(root);
    lemma_component_body_shape(key);
    let body = component_body(root) + component_body(key);
    if root.last() == '/' {
        assert(j == root + key);
        lemma_component_body_concat(root, key);
    } else {
        assert(j == root + slash() + key);
        assert((root + slash()).last() == '/');
        lemma_component_body_concat(root + slash(), key);
        lemma_component_body_slash(root);
    }
    assert(j[0] == '/');
    assert(path_components(j) =~= seq![PathPart::RootDir] + body);
    assert forall|i: int| 0 <= i < body.len() implies is_piece_part(#[trigger] body[i]) by {
        if i < component_body(root).len() {
            assert(body[i] == component_body(root)[i]);
        } else {
            assert(body[i] == component_body(key)[i - component_body(root).len()]);
        }
    }
    lemma_render_rooted(body);
    let rebuilt = render_parts(seq![PathPart::RootDir] + body);
    assert(path_components(j) == seq![PathPart::RootDir] + body);
    assert(joined_path(root, key) == rebuilt);
    let a = path_components(root);
    assert(a =~= seq![PathPart::RootDir] + component_body(root));
    let b = path_components(rebuilt);
    assert(b.take(a.len() as int) =~= a);
}

/// Every key that `object_key` accepts is accepted by the file-system store
/// under an absolute root.
pub proof fn law_object_keys_fit_the_filesystem_store(root: Seq<char>, bucket: Seq<char>, file_name: Seq<char>)
    requires
        root.len() > 0,
        root[0] == '/',
    ensures
        path_starts_with(joined_path(root, joined_key(bucket, file_name)), root),
{
    let k = joined_key(bucket, file_name);
    law_normalize_prefix_idempotent(bucket);
    let np = normalized_prefix(bucket);
    let f = trim_start_set(file_name, slash());
    lemma_trim_start_shape(file_name, slash());
    if np.len() > 0 {
        assert(k[0] == np[0]);
    } else if f.len() > 0 {
        assert(k[0] == f[0]);
        assert(!slash().contains(f[0]));
        assert(f[0] != '/') by {
            if f[0] == '/' {
                assert(slash()[0] == f[0]);
            }
        }
    }
    law_relative_keys_stay_under_absolute_root(root, k);
}

} // verus!
