//! File-system paths as the bytes of a Unix path: joining, `~` expansion,
//! the per-user directories, and the directories listed in a search path.
//! Paths are kept as bytes so that names that are not valid UTF-8 pass
//! through unchanged.
use vstd::prelude::*;
use vstd::utf8::*;

verus! {

/// The path separator `/`.
pub const SLASH: u8 = 0x2F;

/// `.`
pub const DOT: u8 = 0x2E;

/// `~`
pub const TILDE: u8 = 0x7E;

/// `:`, the separator of a search path.
pub const COLON: u8 = 0x3A;

/// The UTF-8 bytes of a text, as a path holds them.
pub open spec fn bytes_of(s: Seq<char>) -> Seq<u8> {
    encode_utf8(s)
}

/// Appends the bytes of `s` to `v`.
pub fn push_bytes(v: &mut Vec<u8>, s: &[u8])
    ensures
        final(v)@ == old(v)@ + s@,
{
    let ghost start = v@;
    let mut i: usize = 0;
    while i < s.len()
        invariant
            i <= s@.len(),
            v@ == start + s@.take(i as int),
        decreases s.len() - i,
    {
        v.push(s[i]);
        i = i + 1;
        assert(v@ =~= start + s@.take(i as int));
    }
    assert(s@.take(s@.len() as int) =~= s@);
}

/// A vector holding the bytes of `s` from `start` up to `end`.
pub fn bytes_range(s: &[u8], start: usize, end: usize) -> (r: Vec<u8>)
    requires
        start <= end <= s@.len(),
    ensures
        r@ == s@.subrange(start as int, end as int),
{
    let mut r: Vec<u8> = Vec::new();
    let mut i: usize = start;
    while i < end
        invariant
            start <= i <= end <= s@.len(),
            r@ == s@.subrange(start as int, i as int),
        decreases end - i,
    {
        r.push(s[i]);
        i = i + 1;
        assert(r@ =~= s@.subrange(start as int, i as int));
    }
    r
}

/// `rest` appended to `base` as `PathBuf::push` does it on Unix: an absolute
/// `rest` replaces `base`; otherwise a `/` separates the two unless `base` is
/// empty or already ends in one.
pub open spec fn path_join(base: Seq<u8>, rest: Seq<u8>) -> Seq<u8> {
    if rest.len() > 0 && rest[0] == SLASH {
        rest
    } else if base.len() == 0 || base.last() == SLASH {
        base + rest
    } else {
        base + seq![SLASH] + rest
    }
}

/// Joins two paths (`Path::join` on Unix).
pub fn join_path(base: &[u8], rest: &[u8]) -> (r: Vec<u8>)
    ensures
        r@ == path_join(base@, rest@),
{
    if rest.len() > 0 && rest[0] == SLASH {
        return bytes_range(rest, 0, rest.len());
    }
    let mut r = bytes_range(base, 0, base.len());
    if base.len() > 0 && base[base.len() - 1] != SLASH {
        r.push(SLASH);
    }
    push_bytes(&mut r, rest);
    proof {
        assert(base@.subrange(0, base@.len() as int) =~= base@);
        assert(rest@.subrange(0, rest@.len() as int) =~= rest@);
    }
    r
}

/// `s` without leading separators and `.` components.
pub open spec fn trim_left_components(s: Seq<u8>) -> Seq<u8>
    decreases s.len(),
{
    if s.len() > 0 && (s[0] == SLASH || (s[0] == DOT && (s.len() == 1 || s[1] == SLASH))) {
        trim_left_components(s.drop_first())
    } else {
        s
    }
}

/// `s` without trailing separators and `.` components.
pub open spec fn trim_right_components(s: Seq<u8>) -> Seq<u8>
    decreases s.len(),
{
    if s.len() > 0 && (s.last() == SLASH || (s.last() == DOT && (s.len() == 1 || s[s.len() - 2]
        == SLASH))) {
        trim_right_components(s.drop_last())
    } else {
        s
    }
}

/// The part of `dir` below a leading `~` component, as `Path::strip_prefix("~")`
/// leaves it, or `None` when `dir` does not start with that component.
pub open spec fn home_relative(dir: Seq<u8>) -> Option<Seq<u8>> {
    if dir == seq![TILDE] {
        Some(Seq::empty())
    } else if dir.len() >= 2 && dir[0] == TILDE && dir[1] == SLASH {
        Some(trim_right_components(trim_left_components(dir.skip(2))))
    } else {
        None
    }
}

/// Byte `k` of `s` goes when separators and `.` components are taken off the
/// front: it is `/`, or a `.` followed by `/` or ending `s`.
pub open spec fn removable_front(s: Seq<u8>, k: int) -> bool {
    s[k] == SLASH || (s[k] == DOT && (k + 1 == s.len() || s[k + 1] == SLASH))
}

/// Byte `k` of `s` goes when separators and `.` components are taken off the
/// back of `s` from position `start` on: it is `/`, or a `.` that starts the
/// part or follows a `/`.
pub open spec fn removable_back(s: Seq<u8>, start: int, k: int) -> bool {
    s[k] == SLASH || (s[k] == DOT && (k == start || s[k - 1] == SLASH))
}

/// Taking separators and `.` components off the front of `s` leaves `s[i..]`:
/// every byte before `i` goes, and byte `i`, if there is one, stays.
pub open spec fn front_cut(s: Seq<u8>, i: int) -> bool {
    &&& 0 <= i <= s.len()
    &&& trim_left_components(s) == s.skip(i)
    &&& forall|k: int| 0 <= k < i ==> #[trigger] removable_front(s, k)
    &&& i == s.len() || !removable_front(s, i)
}

/// Taking separators and `.` components off the back of `s[start..]` leaves
/// `s[start..j]`: every byte from `j` on goes, and byte `j - 1`, if it is
/// after `start`, stays.
pub open spec fn back_cut(s: Seq<u8>, start: int, j: int) -> bool {
    &&& start <= j <= s.len()
    &&& forall|k: int| j <= k < s.len() ==> #[trigger] removable_back(s, start, k)
    &&& j == start || !removable_back(s, start, j - 1)
}

proof fn lemma_trim_left_shape(s: Seq<u8>)
    ensures
        exists|i: int| #[trigger] front_cut(s, i),
    decreases s.len(),
{
    if s.len() > 0 && (s[0] == SLASH || (s[0] == DOT && (s.len() == 1 || s[1] == SLASH))) {
        let d = s.drop_first();
        lemma_trim_left_shape(d);
        let i = choose|i: int| #[trigger] front_cut(d, i);
        assert(d.skip(i) =~= s.skip(i + 1));
        assert forall|k: int| 0 <= k < i + 1 implies #[trigger] removable_front(s, k) by {
            if k > 0 {
                assert(removable_front(d, k - 1));
                assert(d[k - 1] == s[k]);
                if k < s.len() - 1 {
                    assert(d[k] == s[k + 1]);
                }
            }
        }
        if i + 1 < s.len() {
            assert(d[i] == s[i + 1]);
            if i + 1 < d.len() {
                assert(d[i + 1] == s[i + 2]);
            }
        }
        assert(front_cut(s, i + 1));
    } else {
        assert(s.skip(0) =~= s);
        assert(front_cut(s, 0));
    }
}

proof fn lemma_trim_right_shape(s: Seq<u8>)
    ensures
        exists|j: int| #[trigger] back_cut(s, 0, j) && trim_right_components(s) == s.take(j),
    decreases s.len(),
{
    if s.len() > 0 && (s.last() == SLASH || (s.last() == DOT && (s.len() == 1 || s[s.len() - 2]
        == SLASH))) {
        let d = s.drop_last();
        lemma_trim_right_shape(d);
        let j = choose|j: int| #[trigger] back_cut(d, 0, j) && trim_right_components(d) == d.take(j);
        assert(d.take(j) =~= s.take(j));
        assert forall|k: int| j <= k < s.len() implies #[trigger] removable_back(s, 0, k) by {
            if k < s.len() - 1 {
                assert(removable_back(d, 0, k));
                assert(d[k] == s[k]);
                if k > 0 {
                    assert(d[k - 1] == s[k - 1]);
                }
            }
        }
        if j > 0 {
            assert(d[j - 1] == s[j - 1]);
            if j > 1 {
                assert(d[j - 2] == s[j - 2]);
            }
        }
        assert(back_cut(s, 0, j));
    } else {
        assert(s.take(s.len() as int) =~= s);
        assert(back_cut(s, 0, s.len() as int));
    }
}

/// What is left of a `~/…` directory below the home directory: a stretch
/// `r[i..j]` of the part `r` after `~/`, where everything removed in front
/// is `/` or a whole `.` component, everything removed behind is `/` or a
/// whole `.` component, and no more could be removed at either end. So a
/// component such as `.local` is kept whole.
pub proof fn lemma_home_relative_shape(dir: Seq<u8>)
    requires
        dir.len() >= 2,
        dir[0] == TILDE,
        dir[1] == SLASH,
    ensures
        exists|i: int, j: int|
            #[trigger] front_cut(dir.skip(2), i) && #[trigger] back_cut(dir.skip(2), i, j)
                && home_relative(dir) == Some(dir.skip(2).subrange(i, j)),
{
    let r = dir.skip(2);
    assert(dir != seq![TILDE]);
    lemma_trim_left_shape(r);
    let i = choose|i: int| #[trigger] front_cut(r, i);
    let t = r.skip(i);
    lemma_trim_right_shape(t);
    let m = choose|m: int| #[trigger] back_cut(t, 0, m) && trim_right_components(t) == t.take(m);
    let j = i + m;
    assert(t.take(m) =~= r.subrange(i, j));
    assert forall|k: int| j <= k < r.len() implies #[trigger] removable_back(r, i, k) by {
        assert(removable_back(t, 0, k - i));
        assert(t[k - i] == r[k]);
        if k - i > 0 {
            assert(t[k - i - 1] == r[k - 1]);
        }
    }
    if j > i {
        assert(t[m - 1] == r[j - 1]);
        if m > 1 {
            assert(t[m - 2] == r[j - 2]);
        }
    }
    assert(back_cut(r, i, j));
}

/// A directory is below the home directory exactly when it is `~` or starts
/// with `~/`; `~` alone stands for the home directory itself.
pub proof fn lemma_home_relative_when(dir: Seq<u8>)
    ensures
        home_relative(dir) is Some <==> (dir == seq![TILDE] || (dir.len() >= 2 && dir[0] == TILDE
            && dir[1] == SLASH)),
        dir == seq![TILDE] ==> home_relative(dir) == Some(Seq::<u8>::empty()),
{
}

/// `dir` with a leading `~` replaced by the home directory when both are there.
pub open spec fn expanded_dir(dir: Seq<u8>, home: Option<Seq<u8>>) -> Seq<u8> {
    match (home_relative(dir), home) {
        (Some(rest), Some(h)) => path_join(h, rest),
        _ => dir,
    }
}

/// The view of an optional byte vector.
pub open spec fn opt_bytes(o: Option<Vec<u8>>) -> Option<Seq<u8>> {
    match o {
        Some(t) => Some(t@),
        None => None,
    }
}

/// The part of `dir` below a leading `~` component, if it has one.
pub fn strip_home_prefix(dir: &[u8]) -> (r: Option<Vec<u8>>)
    ensures
        opt_bytes(r) == home_relative(dir@),
{
    let v = dir;
    if v.len() == 1 && v[0] == TILDE {
        assert(v@ =~= seq![TILDE]);
        return Some(Vec::new());
    }
    if !(v.len() >= 2 && v[0] == TILDE && v[1] == SLASH) {
        proof {
            if dir@ == seq![TILDE] {
                assert(v@.len() == 1);
            }
        }
        return None;
    }
    assert(v@ != seq![TILDE]);
    let ghost s = v@.skip(2);
    let mut i: usize = 2;
    while i < v.len() && (v[i] == SLASH || (v[i] == DOT && (i + 1 == v.len() || v[i + 1] == SLASH)))
        invariant
            2 <= i <= v@.len(),
            trim_left_components(v@.skip(i as int)) == trim_left_components(s),
            s == v@.skip(2),
        decreases v.len() - i,
    {
        assert(v@.skip(i as int).drop_first() =~= v@.skip(i + 1));
        i = i + 1;
    }
    assert(trim_left_components(v@.skip(i as int)) == v@.skip(i as int));
    let ghost t = v@.skip(i as int);
    let mut j: usize = v.len();
    assert(v@.subrange(i as int, j as int) =~= t);
    while j > i && (v[j - 1] == SLASH || (v[j - 1] == DOT && (j - 1 == i || v[j - 2] == SLASH)))
        invariant
            i <= j <= v@.len(),
            t == v@.skip(i as int),
            trim_right_components(v@.subrange(i as int, j as int)) == trim_right_components(t),
        decreases j,
    {
        assert(v@.subrange(i as int, j as int).drop_last() =~= v@.subrange(i as int, j - 1));
        j = j - 1;
    }
    Some(bytes_range(v, i, j))
}

/// `dir` with a leading `~` component replaced by `home` when both are there.
pub fn expand_home(dir: &[u8], home: Option<Vec<u8>>) -> (r: Vec<u8>)
    ensures
        r@ == expanded_dir(dir@, opt_bytes(home)),
{
    match strip_home_prefix(dir) {
        Some(rest) => match home {
            Some(h) => join_path(h.as_slice(), rest.as_slice()),
            None => bytes_range(dir, 0, dir.len()),
        },
        None => bytes_range(dir, 0, dir.len()),
    }
}

/// The user's home directory (`dirs::home_dir`), as the bytes of the path.
///
/// Trusted, and nothing is stated of the result: it comes from the
/// environment (`$HOME`) or the user database.
#[verifier::external_body]
pub(crate) fn home_dir() -> Option<Vec<u8>> {
    match dirs::home_dir() {
        Some(p) => Some(p.into_os_string().into_encoded_bytes()),
        None => None,
    }
}

/// The user's configuration directory (`dirs::config_dir`), as the bytes of
/// the path.
///
/// Trusted, and nothing is stated of the result: it comes from the
/// environment (`$XDG_CONFIG_HOME` or `$HOME`).
#[verifier::external_body]
pub(crate) fn config_dir() -> Option<Vec<u8>> {
    match dirs::config_dir() {
        Some(p) => Some(p.into_os_string().into_encoded_bytes()),
        None => None,
    }
}

/// The user's local data directory (`dirs::data_local_dir`), as the bytes of
/// the path.
///
/// Trusted, and nothing is stated of the result: it comes from the
/// environment (`$XDG_DATA_HOME` or `$HOME`).
#[verifier::external_body]
pub(crate) fn data_local_dir() -> Option<Vec<u8>> {
    match dirs::data_local_dir() {
        Some(p) => Some(p.into_os_string().into_encoded_bytes()),
        None => None,
    }
}

/// The text of a path, with byte sequences that are not UTF-8 replaced, as
/// `String::from_utf8_lossy` makes it (the same on every machine).
pub uninterp spec fn lossy_text(b: Seq<u8>) -> Seq<char>;

/// The text of a path (`String::from_utf8_lossy`).
///
/// Trusted: the result is a function of the bytes alone; valid UTF-8 is
/// decoded as it is, and what replaces invalid bytes is not stated here.
#[verifier::external_body]
pub(crate) fn path_text(b: &[u8]) -> (r: String)
    ensures
        r@ == lossy_text(b@),
        valid_utf8(b@) ==> r@ == decode_utf8(b@),
{
    String::from_utf8_lossy(b).into_owned()
}

/// `first/second` below `base`, or below `.` when there is no base.
pub open spec fn app_path(base: Option<Seq<u8>>, first: Seq<u8>, second: Seq<u8>) -> Seq<u8> {
    let b = match base {
        Some(b) => b,
        None => seq![DOT],
    };
    path_join(path_join(b, first), second)
}

/// `first/second` below `base`, or below `.` when there is no base.
pub fn path_under(base: Option<Vec<u8>>, first: &[u8], second: &[u8]) -> (r: Vec<u8>)
    ensures
        r@ == app_path(opt_bytes(base), first@, second@),
{
    let b = match base {
        Some(b) => b,
        None => {
            let mut d: Vec<u8> = Vec::new();
            d.push(DOT);
            assert(d@ =~= seq![DOT]);
            d
        },
    };
    let p = join_path(b.as_slice(), first);
    join_path(p.as_slice(), second)
}

/// The pieces of a search path between `:` separators, as
/// `std::env::split_paths` yields them on Unix (empty pieces included).
pub open spec fn split_search_path(s: Seq<u8>) -> Seq<Seq<u8>>
    decreases s.len(),
{
    if s.len() == 0 {
        seq![Seq::empty()]
    } else {
        let r = split_search_path(s.drop_last());
        if s.last() == COLON {
            r.push(Seq::empty())
        } else {
            r.update(r.len() - 1, r.last().push(s.last()))
        }
    }
}

/// A search path has at least one piece.
pub proof fn lemma_split_nonempty(s: Seq<u8>)
    ensures
        split_search_path(s).len() >= 1,
    decreases s.len(),
{
    if s.len() > 0 {
        lemma_split_nonempty(s.drop_last());
    }
}

/// The pieces put back together with `:` between them.
pub open spec fn join_with_colons(pieces: Seq<Seq<u8>>) -> Seq<u8>
    decreases pieces.len(),
{
    if pieces.len() <= 1 {
        if pieces.len() == 0 { Seq::empty() } else { pieces[0] }
    } else {
        join_with_colons(pieces.drop_last()) + seq![COLON] + pieces.last()
    }
}

proof fn lemma_join_extend_last(r: Seq<Seq<u8>>, c: u8)
    requires
        r.len() >= 1,
    ensures
        join_with_colons(r.update(r.len() - 1, r.last().push(c))) == join_with_colons(r).push(c),
{
    let u = r.update(r.len() - 1, r.last().push(c));
    if r.len() > 1 {
        assert(u.drop_last() =~= r.drop_last());
    }
}

/// Splitting a search path at `:` loses nothing: the pieces, put back
/// together with `:` between them, are the search path, and no piece holds
/// a `:`.
pub proof fn lemma_split_search_path(s: Seq<u8>)
    ensures
        join_with_colons(split_search_path(s)) == s,
        forall|i: int, k: int|
            0 <= i < split_search_path(s).len() && 0 <= k < split_search_path(s)[i].len()
                ==> #[trigger] split_search_path(s)[i][k] != COLON,
    decreases s.len(),
{
    if s.len() == 0 {
        assert(split_search_path(s) =~= seq![Seq::<u8>::empty()]);
    } else {
        let d = s.drop_last();
        lemma_split_search_path(d);
        lemma_split_nonempty(d);
        let r = split_search_path(d);
        if s.last() == COLON {
            assert(r.push(Seq::empty()).drop_last() =~= r);
            assert(join_with_colons(r.push(Seq::empty())) =~= d + seq![COLON]);
            assert(d + seq![COLON] =~= s);
            assert forall|i: int, k: int|
                0 <= i < split_search_path(s).len() && 0 <= k < split_search_path(s)[i].len()
                    implies #[trigger] split_search_path(s)[i][k] != COLON by {
                assert(i < r.len());
                assert(split_search_path(s)[i] == r[i]);
            }
        } else {
            lemma_join_extend_last(r, s.last());
            assert(d.push(s.last()) =~= s);
            assert forall|i: int, k: int|
                0 <= i < split_search_path(s).len() && 0 <= k < split_search_path(s)[i].len()
                    implies #[trigger] split_search_path(s)[i][k] != COLON by {
                if i < r.len() - 1 {
                    assert(split_search_path(s)[i] == r[i]);
                } else {
                    assert(split_search_path(s)[i] == r.last().push(s.last()));
                    if k < r.last().len() {
                        assert(split_search_path(s)[i][k] == r[r.len() - 1][k]);
                    }
                }
            }
        }
    }
}

/// Joining keeps both parts: a relative `rest` is added at the end of `base`,
/// with one `/` between them when `base` does not already end in one, and
/// an absolute `rest` is the result.
pub proof fn lemma_path_join_keeps_parts(base: Seq<u8>, rest: Seq<u8>)
    ensures
        path_join(base, rest).len() >= rest.len(),
        path_join(base, rest).skip(path_join(base, rest).len() - rest.len()) == rest,
        !(rest.len() > 0 && rest[0] == SLASH) ==> path_join(base, rest).take(base.len() as int)
            == base,
        !(rest.len() > 0 && rest[0] == SLASH) && base.len() > 0 && base.last() != SLASH
            ==> path_join(base, rest).len() == base.len() + 1 + rest.len() && path_join(
            base,
            rest,
        )[base.len() as int] == SLASH,
        !(rest.len() > 0 && rest[0] == SLASH) && (base.len() == 0 || base.last() == SLASH)
            ==> path_join(base, rest).len() == base.len() + rest.len(),
{
    let j = path_join(base, rest);
    assert(j.skip(j.len() - rest.len()) =~= rest);
    if !(rest.len() > 0 && rest[0] == SLASH) {
        assert(j.take(base.len() as int) =~= base);
    }
}

/// The places where a program called `name` is looked for along a search
/// path: `name` joined to each piece of the path, in order.
pub open spec fn search_candidates(path_var: Seq<u8>, name: Seq<u8>) -> Seq<Seq<u8>> {
    split_search_path(path_var).map_values(|dir: Seq<u8>| path_join(dir, name))
}

/// The places where a program called `name` is looked for along `path_var`.
pub fn candidates(path_var: &[u8], name: &[u8]) -> (r: Vec<Vec<u8>>)
    ensures
        r@.len() == search_candidates(path_var@, name@).len(),
        forall|i: int| 0 <= i < r@.len() ==> #[trigger] r@[i]@ == search_candidates(path_var@, name@)[i],
{
    let v = path_var;
    let mut dirs: Vec<Vec<u8>> = Vec::new();
    let mut cur: Vec<u8> = Vec::new();
    let mut i: usize = 0;
    while i < v.len()
        invariant
            i <= v@.len(),
            ({
                let sp = split_search_path(v@.take(i as int));
                &&& sp.len() == dirs@.len() + 1
                &&& forall|k: int| 0 <= k < dirs@.len() ==> #[trigger] dirs@[k]@ == sp[k]
                &&& cur@ == sp.last()
            }),
        decreases v.len() - i,
    {
        proof {
            lemma_split_nonempty(v@.take(i as int));
            assert(v@.take(i + 1).drop_last() =~= v@.take(i as int));
        }
        if v[i] == COLON {
            let mut done: Vec<u8> = Vec::new();
            core::mem::swap(&mut done, &mut cur);
            dirs.push(done);
        } else {
            cur.push(v[i]);
        }
        i = i + 1;
    }
    assert(v@.take(v@.len() as int) =~= v@);
    dirs.push(cur);
    let mut r: Vec<Vec<u8>> = Vec::new();
    let mut k: usize = 0;
    while k < dirs.len()
        invariant
            k <= dirs.len(),
            dirs@.len() == split_search_path(path_var@).len(),
            forall|m: int| 0 <= m < dirs@.len() ==> #[trigger] dirs@[m]@ == split_search_path(path_var@)[m],
            r@.len() == k,
            forall|m: int| 0 <= m < k ==> #[trigger] r@[m]@ == search_candidates(path_var@, name@)[m],
        decreases dirs.len() - k,
    {
        r.push(join_path(dirs[k].as_slice(), name));
        k = k + 1;
    }
    r
}

} // verus!
