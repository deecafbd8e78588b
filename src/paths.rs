//! Path resolution over a component model of paths.
//!
//! A path string is read as a sequence of components: a leading `/` is the
//! root component, and every non-empty piece between separators other than
//! `.` is a normal component. Paths that the library builds are written back
//! in canonical form: the root, then the normal components joined by `/`.
//! The model is that of POSIX paths: there are no drive prefixes.
use vstd::prelude::*;
use vstd::string::*;

use crate::options::OptionsPayload;
use crate::text::text_is;

verus! {

/// The views of a sequence of strings.
pub open spec fn views(v: Seq<String>) -> Seq<Seq<char>> {
    v.map_values(|x: String| x@)
}

/// The root component.
pub open spec fn root() -> Seq<char> {
    seq!['/']
}

/// A piece between separators that counts as a component.
pub open spec fn is_kept(seg: Seq<char>) -> bool {
    seg.len() > 0 && seg != seq!['.']
}

pub open spec fn keep(done: Seq<Seq<char>>, cur: Seq<char>) -> Seq<Seq<char>> {
    if is_kept(cur) {
        done.push(cur)
    } else {
        done
    }
}

/// The finished components and the piece in progress after reading `s`.
pub open spec fn scan(s: Seq<char>) -> (Seq<Seq<char>>, Seq<char>)
    decreases s.len(),
{
    if s.len() == 0 {
        (Seq::empty(), Seq::empty())
    } else {
        let (d, c) = scan(s.drop_last());
        if s.last() == '/' {
            (keep(d, c), Seq::empty())
        } else {
            (d, c.push(s.last()))
        }
    }
}

/// The normal components of `s`, in order.
pub open spec fn segments(s: Seq<char>) -> Seq<Seq<char>> {
    keep(scan(s).0, scan(s).1)
}

pub open spec fn is_absolute(s: Seq<char>) -> bool {
    s.len() > 0 && s[0] == '/'
}

/// The components of the path `s`.
pub open spec fn components(s: Seq<char>) -> Seq<Seq<char>> {
    if is_absolute(s) {
        seq![root()] + segments(s)
    } else {
        segments(s)
    }
}

/// Normal components joined by separators.
pub open spec fn join_segs(segs: Seq<Seq<char>>) -> Seq<char>
    decreases segs.len(),
{
    if segs.len() == 0 {
        Seq::empty()
    } else if segs.len() == 1 {
        segs[0]
    } else {
        join_segs(segs.drop_last()) + seq!['/'] + segs.last()
    }
}

/// The canonical string of a component sequence.
pub open spec fn join_path(cs: Seq<Seq<char>>) -> Seq<char> {
    if cs.len() > 0 && cs[0] == root() {
        root() + join_segs(cs.drop_first())
    } else {
        join_segs(cs)
    }
}

/// The components of the parent directory, if there is one.
pub open spec fn parent(cs: Seq<Seq<char>>) -> Option<Seq<Seq<char>>> {
    if cs.len() == 0 || cs.last() == root() {
        None
    } else {
        Some(cs.drop_last())
    }
}

/// Length of the longest common prefix of two component sequences.
pub open spec fn common_len(a: Seq<Seq<char>>, b: Seq<Seq<char>>) -> nat
    decreases a.len(),
{
    if a.len() == 0 || b.len() == 0 || a[0] != b[0] {
        0
    } else {
        1 + common_len(a.drop_first(), b.drop_first())
    }
}

/// The directory that the path `p` names for the purpose of a common
/// ancestor: its parent when it is a file (the root when it has none).
pub open spec fn folder_of(p: Seq<Seq<char>>, is_file: bool) -> Seq<Seq<char>> {
    if is_file {
        match parent(p) {
            Some(d) => d,
            None => seq![root()],
        }
    } else {
        p
    }
}

/// The base folder after taking the absolute path `new_path` into account.
pub open spec fn base_folder_after(base: Seq<char>, new_path: Seq<char>, is_file: bool) -> Seq<char> {
    let bc = components(base);
    let nc = components(new_path);
    if base.len() == 0 && parent(nc) is Some {
        join_path(parent(nc).unwrap())
    } else if parent(bc) is None {
        base
    } else {
        join_path(bc.take(common_len(bc, folder_of(nc, is_file)) as int))
    }
}

/// The file name of a path: its last component, unless that is the root or `..`.
pub open spec fn file_name(cs: Seq<Seq<char>>) -> Option<Seq<char>> {
    if cs.len() == 0 || cs.last() == root() || cs.last() == seq!['.', '.'] {
        None
    } else {
        Some(cs.last())
    }
}

/// Index of the last `.` in `n`, or -1.
pub open spec fn last_dot(n: Seq<char>) -> int
    decreases n.len(),
{
    if n.len() == 0 {
        -1
    } else if n.last() == '.' {
        n.len() - 1
    } else {
        last_dot(n.drop_last())
    }
}

/// The stem of a file name: all before the last `.`, unless that dot leads.
pub open spec fn name_stem(n: Seq<char>) -> Seq<char> {
    if last_dot(n) <= 0 {
        n
    } else {
        n.take(last_dot(n))
    }
}

/// The extension of a file name: all after the last `.`, unless that dot leads.
pub open spec fn name_extension(n: Seq<char>) -> Option<Seq<char>> {
    if last_dot(n) <= 0 {
        None
    } else {
        Some(n.skip(last_dot(n) + 1))
    }
}

/// `rel` pushed onto `dir`: an absolute `rel` replaces `dir`.
pub open spec fn push_path(dir: Seq<Seq<char>>, rel: Seq<Seq<char>>) -> Seq<Seq<char>> {
    if rel.len() > 0 && rel[0] == root() {
        rel
    } else {
        dir + rel
    }
}

proof fn lemma_scan_step(s: Seq<char>, i: int)
    requires
        0 <= i < s.len(),
    ensures
        scan(s.take(i + 1)) == (if s[i] == '/' {
            (keep(scan(s.take(i)).0, scan(s.take(i)).1), Seq::<char>::empty())
        } else {
            (scan(s.take(i)).0, scan(s.take(i)).1.push(s[i]))
        }),
{
    assert(s.take(i + 1).drop_last() =~= s.take(i));
}

proof fn lemma_join_segs_step(v: Seq<Seq<char>>, k: int, j: int)
    requires
        0 <= k <= j < v.len(),
    ensures
        join_segs(v.subrange(k, j + 1)) == (if j == k {
            v[j]
        } else {
            join_segs(v.subrange(k, j)) + seq!['/'] + v[j]
        }),
{
    assert(v.subrange(k, j + 1).drop_last() =~= v.subrange(k, j));
}

proof fn lemma_common_len(a: Seq<Seq<char>>, b: Seq<Seq<char>>, i: int)
    requires
        0 <= i <= a.len(),
        i <= b.len(),
        forall|j: int| 0 <= j < i ==> a[j] == b[j],
        i == a.len() || i == b.len() || a[i] != b[i],
    ensures
        common_len(a, b) == i,
    decreases i,
{
    if i > 0 {
        lemma_common_len(a.drop_first(), b.drop_first(), i - 1);
    }
}

/// Whether `c` is the root component.
fn is_root_component(c: &String) -> (r: bool)
    ensures
        r == (c@ == root()),
{
    let s = c.as_str();
    if s.unicode_len() == 1 && s.get_char(0) == '/' {
        assert(s@ =~= root());
        true
    } else {
        assert(s@ != root()) by {
            if s@ == root() {
                assert(s@[0] == '/');
            }
        }
        false
    }
}

/// The root component as a string.
fn root_component() -> (r: String)
    ensures
        r@ == root(),
{
    proof {
        reveal_strlit("/");
    }
    let r = "/".to_owned();
    assert(r@ =~= root());
    r
}

/// Whether a piece read between separators counts as a component.
fn piece_is_kept(seg: &str) -> (r: bool)
    ensures
        r == is_kept(seg@),
{
    let n = seg.unicode_len();
    if n == 0 {
        return false;
    }
    if n == 1 && seg.get_char(0) == '.' {
        assert(seg@ =~= seq!['.']);
        return false;
    }
    assert(seg@ != seq!['.']) by {
        if seg@ == seq!['.'] {
            assert(seg@[0] == '.');
        }
    }
    true
}

/// Appends the normal components of `s` to `out`.
fn push_segments(s: &str, out: &mut Vec<String>)
    ensures
        views(final(out)@) == views(old(out)@) + segments(s@),
{
    let n = s.unicode_len();
    let ghost init = views(out@);
    let mut start: usize = 0;
    let mut i: usize = 0;
    assert(s@.take(0) =~= Seq::<char>::empty());
    assert(s@.subrange(0, 0) =~= Seq::<char>::empty());
    while i < n
        invariant
            n == s@.len(),
            start <= i <= n,
            views(out@) == init + scan(s@.take(i as int)).0,
            scan(s@.take(i as int)).1 == s@.subrange(start as int, i as int),
        decreases n - i,
    {
        let c = s.get_char(i);
        proof {
            lemma_scan_step(s@, i as int);
        }
        if c == '/' {
            let piece = s.substring_char(start, i);
            if piece_is_kept(piece) {
                let owned = piece.to_owned();
                let ghost before = views(out@);
                out.push(owned);
                assert(views(out@) =~= before.push(piece@));
            }
            start = i + 1;
            assert(s@.subrange(start as int, i + 1) =~= Seq::<char>::empty());
        } else {
            assert(s@.subrange(start as int, i + 1) =~= s@.subrange(start as int, i as int).push(c));
        }
        i = i + 1;
    }
    assert(s@.take(n as int) =~= s@);
    let piece = s.substring_char(start, n);
    if piece_is_kept(piece) {
        let owned = piece.to_owned();
        let ghost before = views(out@);
        out.push(owned);
        assert(views(out@) =~= before.push(piece@));
    }
    assert(views(out@) =~= init + segments(s@));
}

/// The components of a path, the root first where the path is absolute.
pub fn components_of(s: &str) -> (r: Vec<String>)
    ensures
        views(r@) == components(s@),
{
    let mut out: Vec<String> = Vec::new();
    if s.unicode_len() > 0 && s.get_char(0) == '/' {
        let r = root_component();
        out.push(r);
        assert(views(out@) =~= seq![root()]);
    }
    assert(views(Seq::<String>::empty()) =~= Seq::<Seq<char>>::empty());
    push_segments(s, &mut out);
    proof {
        if !is_absolute(s@) {
            assert(views(out@) =~= segments(s@));
        }
    }
    out
}

/// The canonical string of the components `cs[..len]`.
pub fn join_components(cs: &Vec<String>, len: usize) -> (r: String)
    requires
        len <= cs@.len(),
    ensures
        r@ == join_path(views(cs@).take(len as int)),
{
    let ghost v = views(cs@).take(len as int);
    let mut r = String::new();
    let mut k: usize = 0;
    proof {
        reveal_strlit("/");
    }
    if len > 0 && is_root_component(&cs[0]) {
        r.append("/");
        k = 1;
    }
    let ghost prefix = r@;
    assert(v.subrange(k as int, k as int) =~= Seq::<Seq<char>>::empty());
    assert(r@ =~= prefix + join_segs(v.subrange(k as int, k as int)));
    let mut j: usize = k;
    while j < len
        invariant
            k <= j <= len <= cs@.len(),
            v == views(cs@).take(len as int),
            r@ == prefix + join_segs(v.subrange(k as int, j as int)),
        decreases len - j,
    {
        proof {
            lemma_join_segs_step(v, k as int, j as int);
        }
        let ghost before = r@;
        if j > k {
            proof {
                reveal_strlit("/");
            }
            r.append("/");
            assert(r@ =~= before + seq!['/']);
        }
        r.append(cs[j].as_str());
        assert(v[j as int] == cs@[j as int]@);
        if j > k {
            assert(r@ =~= prefix + (join_segs(v.subrange(k as int, j as int)) + seq!['/'] + v[j as int]));
        } else {
            assert(r@ =~= prefix + v[j as int]);
        }
        j = j + 1;
    }
    proof {
        if k == 1 {
            assert(v[0] == root());
            assert(v.drop_first() =~= v.subrange(1, len as int));
        } else {
            assert(v =~= v.subrange(0, len as int));
            assert(prefix =~= Seq::<char>::empty());
            assert(r@ =~= join_segs(v));
            if len > 0 {
                assert(v[0] == cs@[0]@);
            }
        }
    }
    r
}

/// Length of the longest common prefix of two component vectors.
fn common_prefix_len(a: &Vec<String>, b: &Vec<String>) -> (r: usize)
    ensures
        r == common_len(views(a@), views(b@)),
        r <= a@.len(),
{
    let mut i: usize = 0;
    while i < a.len() && i < b.len() && a[i] == b[i]
        invariant
            i <= a@.len(),
            i <= b@.len(),
            forall|j: int| 0 <= j < i ==> views(a@)[j] == views(b@)[j],
        decreases a@.len() - i,
    {
        i = i + 1;
    }
    proof {
        lemma_common_len(views(a@), views(b@), i as int);
    }
    i
}

/// Whether the component vector `cs` names the root or nothing, that is,
/// has no parent.
fn has_parent(cs: &Vec<String>) -> (r: bool)
    ensures
        r == (parent(views(cs@)) is Some),
{
    if cs.len() == 0 {
        return false;
    }
    let last = cs.len() - 1;
    let is_root = is_root_component(&cs[last]);
    assert(views(cs@).last() == cs@[last as int]@);
    !is_root
}

/// The deepest common ancestor of `base_folder` and the absolute path
/// `new_path`. An empty `base_folder` takes the parent of `new_path`; a
/// `base_folder` without a parent stays as it is. Otherwise the components
/// of `base_folder` are kept as long as they agree with the folder of
/// `new_path`, which is `new_path` itself for a directory and its parent for
/// a file.
pub fn compute_base_folder(base_folder: &str, new_path: &str, new_path_is_file: bool) -> (r: String)
    ensures
        r@ == base_folder_after(base_folder@, new_path@, new_path_is_file),
{
    let bc = components_of(base_folder);
    let nc = components_of(new_path);
    if base_folder.unicode_len() == 0 && has_parent(&nc) {
        assert(views(nc@).take(nc@.len() - 1) =~= views(nc@).drop_last());
        return join_components(&nc, nc.len() - 1);
    }
    if !has_parent(&bc) {
        return base_folder.to_owned();
    }
    let mut dir = nc;
    if new_path_is_file {
        if has_parent(&dir) {
            let _ = dir.pop();
            assert(views(dir@) =~= views(nc@).drop_last());
        } else {
            let r = root_component();
            dir = Vec::new();
            dir.push(r);
            assert(views(dir@) =~= seq![root()]);
        }
    }
    let k = common_prefix_len(&bc, &dir);
    join_components(&bc, k)
}

/// Relies on std::path::absolute (POSIX): on success the result is an
/// absolute path. An absolute input always succeeds and keeps its
/// components: only `.` components and repeated separators go. A relative
/// input is resolved against the current directory, so nothing more is
/// stated of it.
#[verifier::external_body]
fn absolute_path(p: &str) -> (r: Option<String>)
    ensures
        r matches Some(a) ==> is_absolute(a@),
        is_absolute(p@) ==> r is Some && components(r.unwrap()@) == components(p@),
{
    match std::path::absolute(p) {
        Ok(a) => a.to_str().map(String::from),
        Err(_) => None,
    }
}

/// The base folder after taking `path` into account: `path` is made
/// absolute first, then passed to [`compute_base_folder`]. `None` when
/// `path` cannot be made absolute.
pub fn compute_base_path(path: &str, base_path: &str, path_is_file: bool) -> (r: Option<String>)
    ensures
        r matches Some(b) ==> exists|a: Seq<char>|
            is_absolute(a) && b@ == #[trigger] base_folder_after(base_path@, a, path_is_file),
        is_absolute(path@) ==> (r matches Some(b) && b@ == base_folder_after(base_path@, path@, path_is_file)),
{
    match absolute_path(path) {
        Some(a) => {
            let b = compute_base_folder(base_path, a.as_str(), path_is_file);
            Some(b)
        },
        None => None,
    }
}

/// The name given to the output of `input`: the stem of its file name, then
/// `suffix`, then a dot and the extension, which is the source's own when
/// `format` is `original` and `format` otherwise. No dot is written for an
/// empty extension.
pub open spec fn output_file_name(input: Seq<char>, suffix: Seq<char>, format: Seq<char>) -> Seq<char> {
    let name = match file_name(components(input)) {
        Some(n) => n,
        None => Seq::empty(),
    };
    let ext = if format == "original"@ {
        match name_extension(name) {
            Some(e) => e,
            None => Seq::empty(),
        }
    } else {
        format
    };
    let stem = name_stem(name) + suffix;
    if ext.len() == 0 {
        stem
    } else {
        stem + seq!['.'] + ext
    }
}

/// The folder of `output_dir` that mirrors `abs_parent` below `base`:
/// `None` when `abs_parent` does not lie under `base`.
pub open spec fn mirrored_directory(output_dir: Seq<char>, abs_parent: Seq<char>, base: Seq<char>) -> Option<Seq<char>> {
    mirrored_components(output_dir, components(abs_parent), base)
}

/// The folder of `output_dir` that mirrors the folder with components `pc`
/// below `base`: `None` when that folder does not lie under `base`.
pub open spec fn mirrored_components(output_dir: Seq<char>, pc: Seq<Seq<char>>, base: Seq<char>) -> Option<Seq<char>> {
    let bc = components(base);
    if bc.len() <= pc.len() && pc.take(bc.len() as int) == bc {
        Some(join_path(push_path(components(output_dir), pc.skip(bc.len() as int))))
    } else {
        None
    }
}

/// The folder that receives the output of `input` before any structure is
/// mirrored: the folder of `input` itself, or the configured one.
pub open spec fn output_root(input: Seq<char>, same_folder: bool, output_folder: Seq<char>) -> Option<Seq<char>> {
    if same_folder {
        match parent(components(input)) {
            Some(p) => Some(join_path(p)),
            None => None,
        }
    } else {
        Some(output_folder)
    }
}

proof fn lemma_last_dot_step(n: Seq<char>, i: int)
    requires
        0 < i <= n.len(),
    ensures
        last_dot(n.take(i)) == (if n[i - 1] == '.' {
            i - 1
        } else {
            last_dot(n.take(i - 1))
        }),
{
    assert(n.take(i).drop_last() =~= n.take(i - 1));
}

/// Index of the last `.` of `n`.
fn last_dot_index(n: &str) -> (r: Option<usize>)
    ensures
        match r {
            Some(k) => k == last_dot(n@) && k < n@.len(),
            None => last_dot(n@) == -1,
        },
{
    let mut i = n.unicode_len();
    assert(n@.take(i as int) =~= n@);
    while i > 0
        invariant
            i <= n@.len(),
            last_dot(n@) == last_dot(n@.take(i as int)),
        decreases i,
    {
        proof {
            lemma_last_dot_step(n@, i as int);
        }
        if n.get_char(i - 1) == '.' {
            return Some(i - 1);
        }
        i = i - 1;
    }
    None
}

/// The file name of the last component of `cs`, if it has one.
fn file_name_of(cs: &Vec<String>) -> (r: Option<&String>)
    ensures
        match r {
            Some(n) => file_name(views(cs@)) == Some(n@),
            None => file_name(views(cs@)) is None,
        },
{
    if cs.len() == 0 {
        return None;
    }
    let last = &cs[cs.len() - 1];
    assert(views(cs@).last() == last@);
    proof {
        reveal_strlit("..");
    }
    if is_root_component(last) || text_is(last.as_str(), "..") {
        assert(".."@ =~= seq!['.', '.']);
        return None;
    }
    assert(".."@ =~= seq!['.', '.']);
    Some(last)
}

/// The output file name of `input` (see [`output_file_name`]).
pub fn output_file_name_of(input: &str, suffix: &str, format: &str) -> (r: String)
    ensures
        r@ == output_file_name(input@, suffix@, format@),
{
    let cs = components_of(input);
    let empty = String::new();
    let name: &String = match file_name_of(&cs) {
        Some(n) => n,
        None => &empty,
    };
    let dot = last_dot_index(name.as_str());
    let name_len = name.as_str().unicode_len();
    let (stem_end, ext_start): (usize, usize) = match dot {
        Some(k) => if k == 0 {
            (name_len, name_len)
        } else {
            (k, k + 1)
        },
        None => (name_len, name_len),
    };
    let mut out = name.as_str().substring_char(0, stem_end).to_owned();
    out.append(suffix);
    proof {
        reveal_strlit("original");
        reveal_strlit(".");
    }
    let ext: &str = if text_is(format, "original") {
        name.as_str().substring_char(ext_start, name_len)
    } else {
        format
    };
    assert(name@.take(name@.len() as int) =~= name@);
    assert(name@.skip(name@.len() as int) =~= Seq::<char>::empty());
    if ext.unicode_len() > 0 {
        out.append(".");
        out.append(ext);
    }
    out
}

/// The file name of `path`: its last component, unless that is the root
/// or `..`.
pub fn file_name_of_path(path: &str) -> (r: Option<String>)
    ensures
        r matches Some(n) ==> file_name(components(path@)) == Some(n@),
        r is None ==> file_name(components(path@)) is None,
{
    let cs = components_of(path);
    match file_name_of(&cs) {
        Some(n) => Some(n.clone()),
        None => None,
    }
}

/// The extension of the file name `name`: all after its last dot, unless
/// that dot leads.
pub fn extension_of_name(name: &str) -> (r: Option<String>)
    ensures
        r matches Some(e) ==> name_extension(name@) == Some(e@),
        r is None ==> name_extension(name@) is None,
{
    match last_dot_index(name) {
        Some(k) => if k == 0 {
            None
        } else {
            let n = name.unicode_len();
            Some(name.substring_char(k + 1, n).to_owned())
        },
        None => None,
    }
}

/// The folder that holds `path`, in canonical form.
pub fn parent_of_path(path: &str) -> (r: Option<String>)
    ensures
        r matches Some(p) ==> parent(components(path@)) matches Some(pc) && p@ == join_path(pc),
        r is None ==> parent(components(path@)) is None,
{
    let cs = components_of(path);
    if has_parent(&cs) {
        assert(views(cs@).take(cs@.len() - 1) =~= views(cs@).drop_last());
        Some(join_components(&cs, cs.len() - 1))
    } else {
        None
    }
}

/// Whether the components of `base` lead those of `path`.
fn starts_with_components(path: &Vec<String>, base: &Vec<String>) -> (r: bool)
    ensures
        r == (base@.len() <= path@.len() && views(path@).take(base@.len() as int) == views(base@)),
{
    if base.len() > path.len() {
        return false;
    }
    let mut i: usize = 0;
    while i < base.len()
        invariant
            base@.len() <= path@.len(),
            i <= base@.len(),
            forall|j: int| 0 <= j < i ==> views(path@)[j] == views(base@)[j],
        decreases base@.len() - i,
    {
        if path[i] != base[i] {
            assert(views(path@).take(base@.len() as int)[i as int] != views(base@)[i as int]);
            return false;
        }
        i = i + 1;
    }
    assert(views(path@).take(base@.len() as int) =~= views(base@));
    true
}

/// The folder of `output_dir` that mirrors the absolute folder `abs_parent`
/// below `base` (see [`mirrored_directory`]).
pub fn mirror_directory(output_dir: &str, abs_parent: &str, base: &str) -> (r: Option<String>)
    ensures
        r matches Some(d) ==> mirrored_directory(output_dir@, abs_parent@, base@) == Some(d@),
        r is None ==> mirrored_directory(output_dir@, abs_parent@, base@) is None,
{
    let pc = components_of(abs_parent);
    mirror_components(output_dir, &pc, base)
}

/// The folder of `output_dir` that mirrors the folder with components `pc`
/// below `base` (see [`mirrored_components`]).
fn mirror_components(output_dir: &str, pc: &Vec<String>, base: &str) -> (r: Option<String>)
    ensures
        r matches Some(d) ==> mirrored_components(output_dir@, views(pc@), base@) == Some(d@),
        r is None ==> mirrored_components(output_dir@, views(pc@), base@) is None,
{
    let bc = components_of(base);
    if !starts_with_components(pc, &bc) {
        return None;
    }
    let ghost rest = views(pc@).skip(bc@.len() as int);
    let rest_is_absolute = bc.len() < pc.len() && is_root_component(&pc[bc.len()]);
    let mut dir: Vec<String> = if rest_is_absolute {
        Vec::new()
    } else {
        components_of(output_dir)
    };
    let ghost start = views(dir@);
    let mut i: usize = bc.len();
    while i < pc.len()
        invariant
            bc@.len() <= i <= pc@.len(),
            views(dir@) == start + views(pc@).subrange(bc@.len() as int, i as int),
        decreases pc@.len() - i,
    {
        let c = pc[i].clone();
        assert(c@ == views(pc@)[i as int]);
        let ghost before = views(dir@);
        dir.push(c);
        assert(views(dir@) =~= before.push(views(pc@)[i as int]));
        assert(views(dir@) =~= start + views(pc@).subrange(bc@.len() as int, i + 1));
        i = i + 1;
    }
    assert(views(pc@).subrange(bc@.len() as int, pc@.len() as int) =~= rest);
    proof {
        if rest_is_absolute {
            assert(start =~= Seq::<Seq<char>>::empty());
            assert(views(dir@) =~= rest);
        }
    }
    assert(views(dir@).take(dir@.len() as int) =~= views(dir@));
    Some(join_components(&dir, dir.len()))
}

/// The folder that receives the output of `input` (see [`output_root`]).
pub fn determine_output_directory(input_file: &str, options: &OptionsPayload) -> (r: Option<String>)
    ensures
        r matches Some(d) ==> output_root(input_file@, options.output_options.same_folder_as_input,
            options.output_options.output_folder@) == Some(d@),
        r is None ==> output_root(input_file@, options.output_options.same_folder_as_input,
            options.output_options.output_folder@) is None,
{
    if options.output_options.same_folder_as_input {
        let cs = components_of(input_file);
        if has_parent(&cs) {
            assert(views(cs@).take(cs@.len() - 1) =~= views(cs@).drop_last());
            Some(join_components(&cs, cs.len() - 1))
        } else {
            None
        }
    } else {
        Some(options.output_options.output_folder.clone())
    }
}

/// The folder and file name of the output of `input_file`. Without
/// `keep_structure` the folder is `output_directory` itself. With it, the
/// folder of `input_file` is made absolute and mirrored below
/// `output_directory` relative to `base_directory`; `None` when
/// `input_file` has no folder, cannot be made absolute, or does not lie
/// under `base_directory`.
pub fn compute_output_full_path(
    output_directory: &str,
    input_file_path: &str,
    base_directory: &str,
    keep_structure: bool,
    suffix: &str,
    format: &str,
) -> (r: Option<(String, String)>)
    ensures
        r matches Some((_, n)) ==> n@ == output_file_name(input_file_path@, suffix@, format@),
        !keep_structure ==> (r matches Some((d, _)) && d@ == output_directory@),
        keep_structure && parent(components(input_file_path@)) is None ==> r is None,
        keep_structure && is_absolute(input_file_path@) ==> (match mirrored_components(
            output_directory@,
            parent(components(input_file_path@)).unwrap(),
            base_directory@,
        ) {
            Some(d) => parent(components(input_file_path@)) is Some ==> (r matches Some((rd, _)) && rd@ == d),
            None => r is None,
        }),
        keep_structure ==> (r matches Some((d, _)) ==> exists|pc: Seq<Seq<char>>|
            pc.len() > 0 && pc[0] == root() && #[trigger] mirrored_components(output_directory@, pc, base_directory@)
                == Some(d@)),
{
    let name = output_file_name_of(input_file_path, suffix, format);
    if !keep_structure {
        return Some((output_directory.to_owned(), name));
    }
    let cs = components_of(input_file_path);
    if !has_parent(&cs) || (cs.len() == 1 && !is_absolute_text(input_file_path)) {
        return None;
    }
    let abs = match absolute_path(input_file_path) {
        Some(a) => a,
        None => return None,
    };
    let mut pc = components_of(abs.as_str());
    if !has_parent(&pc) {
        return None;
    }
    let ghost full = views(pc@);
    let _ = pc.pop();
    assert(views(pc@) =~= full.drop_last());
    proof {
        assert(full[0] == root());
    }
    match mirror_components(output_directory, &pc, base_directory) {
        Some(d) => Some((d, name)),
        None => None,
    }
}

fn is_absolute_text(p: &str) -> (r: bool)
    ensures
        r == is_absolute(p@),
{
    p.unicode_len() > 0 && p.get_char(0) == '/'
}

/// Where the output of `input_file` goes under `options`: the folder from
/// [`determine_output_directory`], refined by [`compute_output_full_path`].
/// The caller creates the folder.
pub fn resolve_output_path(input_file: &str, options: &OptionsPayload, base_folder: &str) -> (r: Option<(String, String)>)
    ensures
        output_root(input_file@, options.output_options.same_folder_as_input,
            options.output_options.output_folder@) is None ==> r is None,
        r matches Some((_, n)) ==> n@ == output_file_name(input_file@,
            options.output_options.suffix@, options.output_options.output_format@),
        !options.output_options.keep_folder_structure ==> (output_root(input_file@,
            options.output_options.same_folder_as_input, options.output_options.output_folder@) matches Some(od) ==> (r matches Some((d, _)) && d@ == od)),
        options.output_options.keep_folder_structure && parent(components(input_file@)) is None ==> r is None,
        options.output_options.keep_folder_structure ==> (r matches Some((d, _)) ==> exists|od: Seq<char>, pc: Seq<Seq<char>>|
            output_root(input_file@, options.output_options.same_folder_as_input,
            options.output_options.output_folder@) == Some(od) && pc.len() > 0 && pc[0] == root()
                && #[trigger] mirrored_components(od, pc, base_folder@) == Some(d@)),
        options.output_options.keep_folder_structure && is_absolute(input_file@) ==> (output_root(
            input_file@,
            options.output_options.same_folder_as_input,
            options.output_options.output_folder@,
        ) matches Some(od) ==> (match mirrored_components(
            od,
            parent(components(input_file@)).unwrap(),
            base_folder@,
        ) {
            Some(d) => parent(components(input_file@)) is Some ==> (r matches Some((rd, _)) && rd@ == d),
            None => r is None,
        })),
{
    let dir = match determine_output_directory(input_file, options) {
        Some(d) => d,
        None => return None,
    };
    compute_output_full_path(
        dir.as_str(),
        input_file,
        base_folder,
        options.output_options.keep_folder_structure,
        options.output_options.suffix.as_str(),
        options.output_options.output_format.as_str(),
    )
}

} // verus!
