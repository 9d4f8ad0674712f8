//! Unix path components, as `std::path::Path` documents them, and the
//! suffix and file-stem questions that font lookup asks of a path.
use vstd::prelude::*;

use crate::text::chars_of;

verus! {

broadcast use vstd::string::group_string_axioms;

/// The text that stands for the root directory component.
pub open spec fn root_dir() -> Seq<char> {
    seq!['/']
}

/// The text that stands for a leading current-directory component.
pub open spec fn cur_dir() -> Seq<char> {
    seq!['.']
}

/// The text of a parent-directory component.
pub open spec fn parent_dir() -> Seq<char> {
    seq!['.', '.']
}

/// A segment between separators that names something: it is neither empty
/// (repeated or trailing separators) nor a `.` (normalized away).
pub open spec fn is_kept_segment(seg: Seq<char>) -> bool {
    seg.len() != 0 && seg != cur_dir()
}

pub open spec fn keep_segment(done: Seq<Seq<char>>, seg: Seq<char>) -> Seq<Seq<char>> {
    if is_kept_segment(seg) {
        done.push(seg)
    } else {
        done
    }
}

/// Reading `p` from left to right: the kept segments that a separator has
/// already closed, and the segment being read.
pub open spec fn scan_segments(p: Seq<char>) -> (Seq<Seq<char>>, Seq<char>)
    decreases p.len(),
{
    if p.len() == 0 {
        (Seq::empty(), Seq::empty())
    } else {
        let prev = scan_segments(p.drop_last());
        if p.last() == '/' {
            (keep_segment(prev.0, prev.1), Seq::empty())
        } else {
            (prev.0, prev.1.push(p.last()))
        }
    }
}

/// The named components of `p`: its separator-delimited segments, without
/// empty ones and without `.`.
pub open spec fn body_components(p: Seq<char>) -> Seq<Seq<char>> {
    let s = scan_segments(p);
    keep_segment(s.0, s.1)
}

/// The root component of an absolute path, or the current-directory
/// component of a path that starts with `.` followed by a separator or the end.
pub open spec fn leading_components(p: Seq<char>) -> Seq<Seq<char>> {
    if p.len() > 0 && p[0] == '/' {
        seq![root_dir()]
    } else if p.len() > 0 && p[0] == '.' && (p.len() == 1 || p[1] == '/') {
        seq![cur_dir()]
    } else {
        Seq::empty()
    }
}

/// The components of the path `p`, each given by its text (the root by `/`).
pub open spec fn components(p: Seq<char>) -> Seq<Seq<char>> {
    leading_components(p) + body_components(p)
}

/// `b` is a suffix of `a`, element by element.
pub open spec fn is_component_suffix(a: Seq<Seq<char>>, b: Seq<Seq<char>>) -> bool {
    b.len() <= a.len() && a.subrange(a.len() - b.len(), a.len() as int) == b
}

/// The path `p` ends with the path `child`: the components of `child` are the
/// last components of `p`.
pub open spec fn ends_with(p: Seq<char>, child: Seq<char>) -> bool {
    is_component_suffix(components(p), components(child))
}

/// A component that names an entry, as opposed to the root, `.` or `..`.
pub open spec fn is_normal_component(c: Seq<char>) -> bool {
    c != root_dir() && c != cur_dir() && c != parent_dir()
}

/// The final component of `p`, where it names an entry.
pub open spec fn name_of(p: Seq<char>) -> Option<Seq<char>> {
    let c = components(p);
    if c.len() != 0 && is_normal_component(c.last()) {
        Some(c.last())
    } else {
        None
    }
}

/// The index of the last `.` in `s`.
pub open spec fn last_dot(s: Seq<char>) -> Option<int>
    decreases s.len(),
{
    if s.len() == 0 {
        None
    } else if s.last() == '.' {
        Some(s.len() - 1)
    } else {
        last_dot(s.drop_last())
    }
}

/// A file name without its extension: the part before the last `.`, or the
/// whole name where it holds no `.` or only a leading one.
pub open spec fn stem_of(name: Seq<char>) -> Seq<char> {
    match last_dot(name) {
        Some(i) => if i == 0 {
            name
        } else {
            name.take(i)
        },
        None => name,
    }
}

/// The stem of the final component of `p`, where it names an entry.
pub open spec fn stem_of_path(p: Seq<char>) -> Option<Seq<char>> {
    match name_of(p) {
        Some(n) => Some(stem_of(n)),
        None => None,
    }
}

proof fn lemma_scan_step(p: Seq<char>, i: int)
    requires
        0 <= i < p.len(),
    ensures
        scan_segments(p.take(i + 1)) == (if p[i] == '/' {
            (keep_segment(scan_segments(p.take(i)).0, scan_segments(p.take(i)).1), Seq::empty())
        } else {
            (scan_segments(p.take(i)).0, scan_segments(p.take(i)).1.push(p[i]))
        }),
{
    assert(p.take(i + 1).drop_last() =~= p.take(i));
}

/// The components of `path`, in order, each given by its text; the root
/// directory is given as `/`.
pub fn path_components(path: &str) -> (r: Vec<String>)
    ensures
        r.deep_view() == components(path@),
{
    let ghost p = path@;
    let chars = chars_of(path);
    let n = chars.len();
    let mut comps: Vec<String> = Vec::new();
    if n > 0 && chars[0] == '/' {
        let root = "/".to_owned();
        proof {
            reveal_strlit("/");
            assert(root@ =~= root_dir());
        }
        comps.push(root);
        assert(comps.deep_view() =~= seq![root_dir()]);
    } else if n > 0 && chars[0] == '.' && (n == 1 || chars[1] == '/') {
        let cur = ".".to_owned();
        proof {
            reveal_strlit(".");
            assert(cur@ =~= cur_dir());
        }
        comps.push(cur);
        assert(comps.deep_view() =~= seq![cur_dir()]);
    }
    assert(p.take(0) =~= Seq::<char>::empty());
    assert(comps.deep_view() =~= leading_components(p) + scan_segments(p.take(0)).0);
    let mut start: usize = 0;
    let mut i: usize = 0;
    while i < n
        invariant
            chars@ == p,
            n == p.len(),
            path@ == p,
            start <= i <= n,
            comps.deep_view() == leading_components(p) + scan_segments(p.take(i as int)).0,
            scan_segments(p.take(i as int)).1 == p.subrange(start as int, i as int),
        decreases n - i,
    {
        proof {
            lemma_scan_step(p, i as int);
        }
        let ghost prev = scan_segments(p.take(i as int));
        let ghost lead = leading_components(p);
        if chars[i] == '/' {
            let len = i - start;
            if len != 0 && !(len == 1 && chars[start] == '.') {
                let seg = path.substring_char(start, i).to_owned();
                let ghost before = comps.deep_view();
                comps.push(seg);
                assert(comps.deep_view() =~= before.push(seg@));
                assert(is_kept_segment(prev.1)) by {
                    if prev.1 == cur_dir() {
                        assert(prev.1.len() == 1);
                        assert(prev.1[0] == '.');
                        assert(prev.1[0] == chars@[start as int]);
                    }
                }
                assert(lead + keep_segment(prev.0, prev.1) =~= (lead + prev.0).push(prev.1));
            } else {
                assert(!is_kept_segment(p.subrange(start as int, i as int))) by {
                    if len == 1 {
                        assert(p.subrange(start as int, i as int) =~= seq!['.']);
                    }
                }
            }
            start = i + 1;
            i = i + 1;
            assert(scan_segments(p.take(i as int)).1 =~= p.subrange(start as int, i as int));
        } else {
            i = i + 1;
            assert(scan_segments(p.take(i as int)).1 =~= p.subrange(start as int, i as int));
            assert(scan_segments(p.take(i as int)).0 == prev.0);
        }
        assert(comps.deep_view() =~= leading_components(p) + scan_segments(p.take(i as int)).0);
    }
    assert(p.take(n as int) =~= p);
    let ghost last = scan_segments(p);
    let len = n - start;
    if len != 0 && !(len == 1 && chars[start] == '.') {
        let seg = path.substring_char(start, n).to_owned();
        let ghost before = comps.deep_view();
        comps.push(seg);
        assert(comps.deep_view() =~= before.push(seg@));
        assert(is_kept_segment(last.1)) by {
            if last.1 == cur_dir() {
                assert(last.1.len() == 1);
                assert(last.1[0] == '.');
                assert(last.1[0] == chars@[start as int]);
            }
        }
        assert(leading_components(p) + keep_segment(last.0, last.1) =~= (leading_components(p) + last.0).push(last.1));
    } else {
        assert(!is_kept_segment(p.subrange(start as int, n as int))) by {
            if len == 1 {
                assert(p.subrange(start as int, n as int) =~= seq!['.']);
            }
        }
    }
    assert(comps.deep_view() =~= components(p));
    comps
}

/// Whether the path `path` ends with the path `child`, comparing whole
/// components: `/usr/share/fonts/a.ttf` ends with `fonts/a.ttf` and with
/// `a.ttf`, not with `s/a.ttf`.
pub fn path_ends_with(path: &str, child: &str) -> (r: bool)
    ensures
        r == ends_with(path@, child@),
{
    let a = path_components(path);
    let b = path_components(child);
    let ghost av = a.deep_view();
    let ghost bv = b.deep_view();
    if b.len() > a.len() {
        return false;
    }
    let off = a.len() - b.len();
    let mut k: usize = 0;
    while k < b.len()
        invariant
            av == a.deep_view(),
            bv == b.deep_view(),
            av == components(path@),
            bv == components(child@),
            off + b.len() == a.len(),
            k <= b.len(),
            forall|j: int| 0 <= j < k ==> av[off + j] == bv[j],
        decreases b.len() - k,
    {
        let same = a[off + k] == b[k];
        assert(av[off + k] == a@[off + k]@ && bv[k as int] == b@[k as int]@);
        if !same {
            assert(av.len() == a@.len() && bv.len() == b@.len());
            assert(av.subrange(off as int, a.len() as int)[k as int] != bv[k as int]);
            assert(av.subrange(off as int, a.len() as int) != bv);
            return false;
        }
        k = k + 1;
    }
    assert(av.subrange(off as int, a.len() as int) =~= bv);
    true
}

/// The final component of `path` where it names an entry: `None` for a path
/// that ends in the root, `.` or `..`, or that is empty.
pub fn file_name(path: &str) -> (r: Option<String>)
    ensures
        r matches Some(n) ==> name_of(path@) == Some(n@),
        r is None ==> name_of(path@) is None,
{
    let comps = path_components(path);
    let ghost cv = comps.deep_view();
    if comps.len() == 0 {
        return None;
    }
    let last = &comps[comps.len() - 1];
    assert(last@ == cv.last());
    let chars = chars_of(last.as_str());
    let is_root = chars.len() == 1 && chars[0] == '/';
    let is_cur = chars.len() == 1 && chars[0] == '.';
    let is_parent = chars.len() == 2 && chars[0] == '.' && chars[1] == '.';
    if is_root || is_cur || is_parent {
        proof {
            if is_root {
                assert(chars@ =~= root_dir());
            } else if is_cur {
                assert(chars@ =~= cur_dir());
            } else {
                assert(chars@ =~= parent_dir());
            }
        }
        None
    } else {
        assert(is_normal_component(cv.last())) by {
            if cv.last() == root_dir() {
                assert(chars@.len() == 1 && chars@[0] == '/');
            }
            if cv.last() == cur_dir() {
                assert(chars@.len() == 1 && chars@[0] == '.');
            }
            if cv.last() == parent_dir() {
                assert(chars@.len() == 2 && chars@[0] == '.' && chars@[1] == '.');
            }
        }
        Some(last.clone())
    }
}

proof fn lemma_last_dot(s: Seq<char>)
    ensures
        last_dot(s) matches Some(i) ==> 0 <= i < s.len() && s[i] == '.' && forall|j: int|
            i < j < s.len() ==> s[j] != '.',
        last_dot(s) is None ==> forall|j: int| 0 <= j < s.len() ==> s[j] != '.',
    decreases s.len(),
{
    if s.len() > 0 && s.last() != '.' {
        let t = s.drop_last();
        lemma_last_dot(t);
        assert(last_dot(s) == last_dot(t));
        assert(forall|j: int| 0 <= j < t.len() ==> s[j] == #[trigger] t[j]);
        assert(s[s.len() - 1] != '.');
        match last_dot(t) {
            Some(i) => {
                assert forall|j: int| i < j < s.len() implies s[j] != '.' by {
                    if j < t.len() {
                        assert(s[j] == t[j]);
                    }
                }
            },
            None => {
                assert forall|j: int| 0 <= j < s.len() implies s[j] != '.' by {
                    if j < t.len() {
                        assert(s[j] == t[j]);
                    }
                }
            },
        }
    }
}

/// `name` without its extension: the part before its last `.`, unless the
/// name holds no `.`, or only one at its start.
pub fn name_stem(name: &str) -> (r: String)
    ensures
        r@ == stem_of(name@),
{
    let chars = chars_of(name);
    let n = chars.len();
    let mut i: usize = n;
    while i > 0 && chars[i - 1] != '.'
        invariant
            chars@ == name@,
            n == chars.len(),
            i <= n,
            forall|j: int| i <= j < n ==> chars@[j] != '.',
        decreases i,
    {
        i = i - 1;
    }
    proof {
        lemma_last_dot(name@);
        match last_dot(name@) {
            Some(d) => {
                assert(i > 0 && d == i - 1);
            },
            None => {
                if i > 0 {
                    assert(chars@[i - 1] == '.');
                }
            },
        }
    }
    if i <= 1 {
        name.to_owned()
    } else {
        let stem = name.substring_char(0, i - 1).to_owned();
        assert(stem@ =~= name@.take(i - 1));
        stem
    }
}

/// The stem of the final component of `path`, where it names an entry.
pub fn file_stem(path: &str) -> (r: Option<String>)
    ensures
        r matches Some(s) ==> stem_of_path(path@) == Some(s@),
        r is None ==> stem_of_path(path@) is None,
{
    match file_name(path) {
        Some(n) => Some(name_stem(n.as_str())),
        None => None,
    }
}

/// No `/` occurs in `s`.
pub open spec fn has_no_separator(s: Seq<char>) -> bool {
    forall|j: int| 0 <= j < s.len() ==> s[j] != '/'
}

proof fn lemma_scan_segments_shape(p: Seq<char>)
    ensures
        has_no_separator(scan_segments(p).1),
        forall|k: int|
            0 <= k < scan_segments(p).0.len() ==> is_kept_segment(#[trigger] scan_segments(p).0[k])
                && has_no_separator(scan_segments(p).0[k]),
    decreases p.len(),
{
    if p.len() > 0 {
        lemma_scan_segments_shape(p.drop_last());
        let prev = scan_segments(p.drop_last());
        if p.last() != '/' {
            let cur = prev.1.push(p.last());
            assert forall|j: int| 0 <= j < cur.len() implies cur[j] != '/' by {
                if j < prev.1.len() {
                    assert(cur[j] == prev.1[j]);
                }
            }
        }
    }
}

proof fn lemma_scan_without_separator(s: Seq<char>)
    requires
        has_no_separator(s),
    ensures
        scan_segments(s) == (Seq::<Seq<char>>::empty(), s),
    decreases s.len(),
{
    if s.len() > 0 {
        let t = s.drop_last();
        assert(has_no_separator(t)) by {
            assert forall|j: int| 0 <= j < t.len() implies t[j] != '/' by {
                assert(t[j] == s[j]);
            }
        }
        lemma_scan_without_separator(t);
        assert(s[s.len() - 1] != '/');
        assert(t.push(s.last()) =~= s);
    } else {
        assert(s =~= Seq::<char>::empty());
    }
}

/// The components of a single named entry are that entry alone.
proof fn lemma_components_of_name(n: Seq<char>)
    requires
        is_kept_segment(n),
        has_no_separator(n),
        is_normal_component(n),
    ensures
        components(n) == seq![n],
{
    lemma_scan_without_separator(n);
    assert(n[0] != '/');
    if n[0] == '.' && (n.len() == 1 || n[1] == '/') {
        assert(n.len() == 1);
        assert(n =~= cur_dir());
    }
    assert(leading_components(n) =~= Seq::<Seq<char>>::empty());
    assert(components(n) =~= seq![n]);
}

/// Every path ends with itself.
pub proof fn lemma_ends_with_itself(p: Seq<char>)
    ensures
        ends_with(p, p),
{
    let c = components(p);
    assert(c.subrange(0, c.len() as int) =~= c);
}

/// Every path ends with the empty path, which has no components.
pub proof fn lemma_ends_with_empty(p: Seq<char>)
    ensures
        ends_with(p, Seq::empty()),
{
    let e = Seq::<char>::empty();
    assert(scan_segments(e) == (Seq::<Seq<char>>::empty(), e));
    assert(components(e) =~= Seq::<Seq<char>>::empty());
    let c = components(p);
    assert(c.subrange(c.len() as int, c.len() as int) =~= Seq::<Seq<char>>::empty());
}

/// Ending with is transitive: if `a` ends with `b` and `b` ends with `c`,
/// then `a` ends with `c`.
pub proof fn lemma_ends_with_transitive(a: Seq<char>, b: Seq<char>, c: Seq<char>)
    requires
        ends_with(a, b),
        ends_with(b, c),
    ensures
        ends_with(a, c),
{
    let ca = components(a);
    let cb = components(b);
    let cc = components(c);
    assert(ca.subrange(ca.len() - cc.len(), ca.len() as int) =~= cc) by {
        assert forall|j: int| 0 <= j < cc.len() implies ca.subrange(
            ca.len() - cc.len(),
            ca.len() as int,
        )[j] == cc[j] by {
            assert(cc[j] == cb.subrange(cb.len() - cc.len(), cb.len() as int)[j]);
            assert(cb[cb.len() - cc.len() + j] == ca.subrange(
                ca.len() - cb.len(),
                ca.len() as int,
            )[cb.len() - cc.len() + j]);
        }
    }
}

/// A path ends with its own file name.
pub proof fn lemma_ends_with_own_name(p: Seq<char>)
    requires
        name_of(p) is Some,
    ensures
        ends_with(p, name_of(p)->0),
{
    let n = name_of(p)->0;
    let c = components(p);
    let lead = leading_components(p);
    let body = body_components(p);
    let sc = scan_segments(p);
    lemma_scan_segments_shape(p);
    assert(body.len() > 0) by {
        if body.len() == 0 {
            assert(c =~= lead);
            assert(lead.len() > 0);
            assert(lead.last() == root_dir() || lead.last() == cur_dir());
        }
    }
    assert(c.last() == body.last());
    assert(is_kept_segment(n) && has_no_separator(n)) by {
        if is_kept_segment(sc.1) {
            assert(body == sc.0.push(sc.1));
            assert(body.last() == sc.1);
        } else {
            assert(body == sc.0);
            assert(is_kept_segment(sc.0[sc.0.len() - 1]));
        }
    }
    lemma_components_of_name(n);
    assert(c.subrange(c.len() - 1, c.len() as int) =~= seq![n]);
}

/// A query that names a single entry: not empty, without a separator, and
/// neither `.` nor `..`.
pub open spec fn is_plain_name(q: Seq<char>) -> bool {
    &&& q.len() > 0
    &&& forall|j: int| 0 <= j < q.len() ==> q[j] != '/'
    &&& q != seq!['.']
    &&& q != seq!['.', '.']
}

/// A path ends with a plain name exactly when that name is its file name:
/// the last component of the path is the name itself, whole.
pub proof fn lemma_ends_with_plain_name(p: Seq<char>, q: Seq<char>)
    requires
        is_plain_name(q),
    ensures
        ends_with(p, q) <==> name_of(p) == Some(q),
{
    assert(has_no_separator(q));
    assert(q != root_dir()) by {
        if q == root_dir() {
            assert(q[0] == '/');
        }
    }
    lemma_components_of_name(q);
    let c = components(p);
    if ends_with(p, q) {
        assert(c.subrange(c.len() - 1, c.len() as int)[0] == q);
        assert(c.last() == q);
    }
    if name_of(p) == Some(q) {
        assert(c.subrange(c.len() - 1, c.len() as int) =~= seq![q]);
    }
}

/// Where the last `.` of a name stands after its first character, the stem
/// is exactly the part before that `.`, however long the extension after it.
pub proof fn lemma_stem_cuts_at_last_dot(name: Seq<char>, i: int)
    requires
        0 < i < name.len(),
        name[i] == '.',
        forall|j: int| i < j < name.len() ==> name[j] != '.',
    ensures
        stem_of(name) == name.take(i),
        stem_of(name).len() == i,
{
    lemma_last_dot(name);
    match last_dot(name) {
        Some(k) => {
            if k < i {
                assert(name[i] != '.');
            }
            if k > i {
                assert(name[k] != '.');
            }
        },
        None => {
            assert(name[i] != '.');
        },
    }
}

/// A name without a `.` is its own stem.
pub proof fn lemma_stem_without_dot(name: Seq<char>)
    requires
        forall|j: int| 0 <= j < name.len() ==> name[j] != '.',
    ensures
        stem_of(name) == name,
{
    lemma_last_dot(name);
    if let Some(k) = last_dot(name) {
        assert(name[k] != '.');
    }
}

/// A name whose only `.` is its first character is its own stem.
pub proof fn lemma_stem_of_dot_name(name: Seq<char>)
    requires
        name.len() > 0,
        name[0] == '.',
        forall|j: int| 0 < j < name.len() ==> name[j] != '.',
    ensures
        stem_of(name) == name,
{
    lemma_last_dot(name);
    if let Some(k) = last_dot(name) {
        if k > 0 {
            assert(name[k] != '.');
        }
    }
}

} // verus!
