//! Shell paths: splitting on `/`, resolving `.` and `..`, joining back,
//! and resolving a path typed by the user against the current directory.
use vstd::prelude::*;
use vstd::string::StringExecFns;

verus! {

/// The components of `s` after the partial component `cur`: maximal runs of
/// characters other than `/`, in order, with empty runs dropped.
pub open spec fn split_from(s: Seq<char>, cur: Seq<char>) -> Seq<Seq<char>>
    decreases s.len(),
{
    if s.len() == 0 {
        if cur.len() == 0 {
            Seq::empty()
        } else {
            seq![cur]
        }
    } else if s[0] == '/' {
        let rest = split_from(s.drop_first(), Seq::empty());
        if cur.len() == 0 {
            rest
        } else {
            seq![cur] + rest
        }
    } else {
        split_from(s.drop_first(), cur.push(s[0]))
    }
}

/// The components of a path string.
pub open spec fn components(s: Seq<char>) -> Seq<Seq<char>> {
    split_from(s, Seq::empty())
}

pub open spec fn is_dot(p: Seq<char>) -> bool {
    p == seq!['.']
}

pub open spec fn is_dotdot(p: Seq<char>) -> bool {
    p == seq!['.', '.']
}

/// `.` is dropped, `..` drops the previous component (if any), anything else is kept.
pub open spec fn normalize(p: Seq<Seq<char>>) -> Seq<Seq<char>>
    decreases p.len(),
{
    if p.len() == 0 {
        Seq::empty()
    } else {
        let r = normalize(p.drop_last());
        let x = p.last();
        if is_dotdot(x) {
            if r.len() > 0 {
                r.drop_last()
            } else {
                r
            }
        } else if is_dot(x) {
            r
        } else {
            r.push(x)
        }
    }
}

/// Each component preceded by `/`.
pub open spec fn joined(p: Seq<Seq<char>>) -> Seq<char>
    decreases p.len(),
{
    if p.len() == 0 {
        Seq::empty()
    } else {
        joined(p.drop_last()) + seq!['/'] + p.last()
    }
}

/// The path string of a component list: `/` for the empty list.
pub open spec fn join_spec(p: Seq<Seq<char>>) -> Seq<char> {
    if p.len() == 0 {
        seq!['/']
    } else {
        joined(p)
    }
}

/// The absolute path that `dist` names when the current directory is `cur`.
pub open spec fn resolved_path(dist: Seq<char>, cur: Seq<char>) -> Seq<char> {
    if dist[0] != '/' {
        join_spec(normalize(components(cur) + components(dist)))
    } else {
        join_spec(normalize(components(dist)))
    }
}

pub open spec fn strings_view(v: Seq<String>) -> Seq<Seq<char>> {
    v.map_values(|x: String| x@)
}

/// `r` is a subsequence of `p`: `p` with some of its elements left out.
pub open spec fn is_subsequence(r: Seq<Seq<char>>, p: Seq<Seq<char>>) -> bool
    decreases p.len(),
{
    if r.len() == 0 {
        true
    } else if p.len() == 0 {
        false
    } else if r.last() == p.last() {
        is_subsequence(r.drop_last(), p.drop_last())
    } else {
        is_subsequence(r, p.drop_last())
    }
}

/// No component is `.` or `..`.
pub open spec fn no_dots(p: Seq<Seq<char>>) -> bool {
    forall|i: int| 0 <= i < p.len() ==> !is_dot(#[trigger] p[i]) && !is_dotdot(p[i])
}

/// A component that a normalized path may hold.
pub open spec fn is_plain_component(c: Seq<char>) -> bool {
    &&& c.len() > 0
    &&& !c.contains('/')
    &&& !is_dot(c)
    &&& !is_dotdot(c)
}

pub open spec fn all_plain(p: Seq<Seq<char>>) -> bool {
    forall|i: int| 0 <= i < p.len() ==> #[trigger] is_plain_component(p[i])
}

pub open spec fn all_slash_free(p: Seq<Seq<char>>) -> bool {
    forall|i: int| 0 <= i < p.len() ==> (#[trigger] p[i]).len() > 0 && !p[i].contains('/')
}

/// Appends `c` to `s` (`String::push`).
#[verifier::external_body]
pub(crate) fn push_char(s: &mut String, c: char)
    ensures
        final(s)@ == old(s)@.push(c),
{
    s.push(c);
}

proof fn lemma_skip_step(s: Seq<char>, i: int)
    requires
        0 <= i < s.len(),
    ensures
        s.skip(i)[0] == s[i],
        s.skip(i).drop_first() == s.skip(i + 1),
{
    assert(s.skip(i).drop_first() =~= s.skip(i + 1));
}

/// Splits a path into its components (see `components`).
pub fn split_path(path: &String) -> (ret: Vec<String>)
    ensures
        strings_view(ret@) == components(path@),
{
    let s = path.as_str();
    let n = s.unicode_len();
    let mut tmps = String::new();
    let mut ret: Vec<String> = Vec::new();
    let mut i: usize = 0;
    assert(path@.skip(0) =~= path@);
    assert(strings_view(ret@) + components(path@) =~= components(path@));
    while i < n
        invariant
            n == path@.len(),
            s@ == path@,
            i <= n,
            strings_view(ret@) + split_from(path@.skip(i as int), tmps@) == components(path@),
        decreases n - i,
    {
        let ch = s.get_char(i);
        proof {
            lemma_skip_step(path@, i as int);
        }
        let ghost old_ret = strings_view(ret@);
        let ghost old_tmps = tmps@;
        if ch == '/' {
            if s_len_nonzero(&tmps) {
                let add = tmps.clone();
                ret.push(add);
                assert(strings_view(ret@) =~= old_ret.push(old_tmps));
                assert(old_ret + (seq![old_tmps] + split_from(path@.skip(i + 1), Seq::empty()))
                    =~= old_ret.push(old_tmps) + split_from(path@.skip(i + 1), Seq::empty()));
            }
            tmps = String::new();
        } else {
            push_char(&mut tmps, ch);
        }
        i = i + 1;
    }
    proof {
        assert(path@.skip(n as int) =~= Seq::<char>::empty());
    }
    if s_len_nonzero(&tmps) {
        let ghost old_ret = strings_view(ret@);
        let add = tmps.clone();
        ret.push(add);
        assert(strings_view(ret@) =~= old_ret.push(tmps@));
        assert(old_ret + seq![tmps@] =~= old_ret.push(tmps@));
    } else {
        assert(strings_view(ret@) + Seq::<Seq<char>>::empty() =~= strings_view(ret@));
    }
    ret
}

fn s_len_nonzero(s: &String) -> (b: bool)
    ensures
        b == (s@.len() > 0),
{
    s.as_str().unicode_len() != 0
}

fn is_dotdot_exec(p: &String) -> (b: bool)
    ensures
        b == is_dotdot(p@),
{
    let s = p.as_str();
    let n = s.unicode_len();
    if n == 2 && s.get_char(0) == '.' && s.get_char(1) == '.' {
        assert(p@ =~= seq!['.', '.']);
        true
    } else {
        false
    }
}

fn is_dot_exec(p: &String) -> (b: bool)
    ensures
        b == is_dot(p@),
{
    let s = p.as_str();
    let n = s.unicode_len();
    if n == 1 && s.get_char(0) == '.' {
        assert(p@ =~= seq!['.']);
        true
    } else {
        false
    }
}

/// Resolves `.` and `..` in a component list (see `normalize`).
pub fn formatting_path(path: &Vec<String>) -> (ret: Vec<String>)
    ensures
        strings_view(ret@) == normalize(strings_view(path@)),
{
    let mut ret: Vec<String> = Vec::new();
    let n = path.len();
    let mut j: usize = 0;
    while j < n
        invariant
            n == path@.len(),
            j <= n,
            strings_view(ret@) == normalize(strings_view(path@).take(j as int)),
        decreases n - j,
    {
        let p = &path[j];
        let ghost pv = strings_view(path@);
        let ghost old_ret = strings_view(ret@);
        proof {
            assert(pv.take(j + 1).drop_last() =~= pv.take(j as int));
            assert(pv.take(j + 1).last() == p@);
        }
        if is_dotdot_exec(p) {
            if ret.len() != 0 {
                ret.pop();
                assert(strings_view(ret@) =~= old_ret.drop_last());
            }
        } else if !is_dot_exec(p) {
            let add = p.clone();
            ret.push(add);
            assert(strings_view(ret@) =~= old_ret.push(p@));
        }
        j = j + 1;
    }
    assert(strings_view(path@).take(n as int) =~= strings_view(path@));
    ret
}

/// Joins components back into a path string (see `join_spec`).
pub fn join_path(path: &Vec<String>) -> (ret: String)
    ensures
        ret@ == join_spec(strings_view(path@)),
{
    let mut ret = String::new();
    let n = path.len();
    let mut j: usize = 0;
    proof {
        reveal_strlit("/");
    }
    while j < n
        invariant
            n == path@.len(),
            j <= n,
            ret@ == joined(strings_view(path@).take(j as int)),
            "/"@ == seq!['/'],
        decreases n - j,
    {
        let ghost pv = strings_view(path@);
        proof {
            assert(pv.take(j + 1).drop_last() =~= pv.take(j as int));
            assert(pv.take(j + 1).last() == path@[j as int]@);
        }
        ret.append("/");
        ret.append(path[j].as_str());
        j = j + 1;
    }
    assert(strings_view(path@).take(n as int) =~= strings_view(path@));
    proof {
        lemma_joined_len(strings_view(path@));
    }
    if s_len_nonzero(&ret) {
        ret
    } else {
        let mut root = String::new();
        root.append("/");
        root
    }
}

proof fn lemma_joined_len(p: Seq<Seq<char>>)
    ensures
        (joined(p).len() == 0) == (p.len() == 0),
    decreases p.len(),
{
    if p.len() > 0 {
        lemma_joined_len(p.drop_last());
    }
}

/// Resolves `dist` against the current directory `cur_dir`: a path that does
/// not start with `/` is taken relative to `cur_dir`.
pub fn get_path(dist: &String, cur_dir: &String) -> (ret: String)
    requires
        dist@.len() > 0,
    ensures
        ret@ == resolved_path(dist@, cur_dir@),
{
    let tar = split_path(dist);
    if dist.as_str().get_char(0) != '/' {
        let mut vcur = split_path(cur_dir);
        let mut tar = tar;
        let ghost a = strings_view(vcur@);
        let ghost b = strings_view(tar@);
        vcur.append(&mut tar);
        assert(strings_view(vcur@) =~= a + b);
        let vcur = formatting_path(&vcur);
        join_path(&vcur)
    } else {
        let tar = formatting_path(&tar);
        join_path(&tar)
    }
}

/// The new current directory after `cd dist` in directory `cur_dir`.
pub fn mycd(dist: &str, cur_dir: &mut String)
    requires
        dist@.len() > 0,
    ensures
        final(cur_dir)@ == resolved_path(dist@, old(cur_dir)@),
{
    let d = dist.to_owned();
    let goto = get_path(&d, cur_dir);
    *cur_dir = goto;
}

/// The directory that `ls dist` lists when the current directory is `cur_dir`.
pub fn myls(dist: &str, cur_dir: &String) -> (ret: String)
    requires
        dist@.len() > 0,
    ensures
        ret@ == resolved_path(dist@, cur_dir@),
{
    let d = dist.to_owned();
    get_path(&d, cur_dir)
}

proof fn lemma_split_no_slash_prefix(s: Seq<char>, t: Seq<char>, cur: Seq<char>)
    requires
        !s.contains('/'),
    ensures
        split_from(s + t, cur) == split_from(t, cur + s),
    decreases s.len(),
{
    if s.len() == 0 {
        assert(s + t =~= t);
        assert(cur + s =~= cur);
    } else {
        assert((s + t)[0] == s[0]);
        assert((s + t).drop_first() =~= s.drop_first() + t);
        assert(!s.drop_first().contains('/')) by {
            if s.drop_first().contains('/') {
                let k = choose|k: int| 0 <= k < s.drop_first().len() && s.drop_first()[k] == '/';
                assert(s[k + 1] == '/');
            }
        }
        assert(s[0] != '/') by {
            assert(s[0] == s[0]);
            if s[0] == '/' {
                assert(s.contains('/'));
            }
        }
        lemma_split_no_slash_prefix(s.drop_first(), t, cur.push(s[0]));
        assert(cur.push(s[0]) + s.drop_first() =~= cur + s);
    }
}

proof fn lemma_joined_cons(p: Seq<Seq<char>>)
    requires
        p.len() > 0,
    ensures
        joined(p) == seq!['/'] + p[0] + joined(p.drop_first()),
    decreases p.len(),
{
    if p.len() == 1 {
        assert(p.drop_last() =~= Seq::<Seq<char>>::empty());
        assert(p.drop_first() =~= Seq::<Seq<char>>::empty());
        assert(joined(p) =~= seq!['/'] + p[0] + joined(p.drop_first()));
    } else {
        lemma_joined_cons(p.drop_last());
        assert(p.drop_last().drop_first() =~= p.drop_first().drop_last());
        assert(p.drop_first().last() == p.last());
        assert(p.drop_last()[0] == p[0]);
        assert(joined(p) =~= seq!['/'] + p[0] + joined(p.drop_first()));
    }
}

proof fn lemma_split_joined(p: Seq<Seq<char>>)
    requires
        all_slash_free(p),
    ensures
        components(joined(p)) == p,
    decreases p.len(),
{
    if p.len() == 0 {
    } else {
        lemma_joined_cons(p);
        let x = p[0];
        let rest = joined(p.drop_first());
        let whole = seq!['/'] + x + rest;
        assert(whole[0] == '/');
        assert(whole.drop_first() =~= x + rest);
        assert(x.len() > 0 && !x.contains('/'));
        lemma_split_no_slash_prefix(x, rest, Seq::empty());
        assert(Seq::<char>::empty() + x =~= x);
        assert(all_slash_free(p.drop_first())) by {
            assert forall|i: int| 0 <= i < p.drop_first().len() implies (#[trigger] p.drop_first()[i]).len() > 0
                && !p.drop_first()[i].contains('/') by {
                assert(p.drop_first()[i] == p[i + 1]);
            }
        }
        lemma_split_joined(p.drop_first());
        if p.len() == 1 {
            assert(rest =~= Seq::<char>::empty());
            assert(p =~= seq![x]);
        } else {
            lemma_joined_cons(p.drop_first());
            assert(rest[0] == '/');
            assert(p =~= seq![x] + p.drop_first());
        }
    }
}

proof fn lemma_split_slash_free(s: Seq<char>, cur: Seq<char>)
    requires
        !cur.contains('/'),
    ensures
        all_slash_free(split_from(s, cur)),
    decreases s.len(),
{
    if s.len() == 0 {
    } else if s[0] == '/' {
        lemma_split_slash_free(s.drop_first(), Seq::empty());
        let rest = split_from(s.drop_first(), Seq::empty());
        if cur.len() > 0 {
            assert forall|i: int| 0 <= i < (seq![cur] + rest).len() implies (#[trigger] (seq![cur]
                + rest)[i]).len() > 0 && !(seq![cur] + rest)[i].contains('/') by {
                if i > 0 {
                    assert((seq![cur] + rest)[i] == rest[i - 1]);
                }
            }
        }
    } else {
        assert(!cur.push(s[0]).contains('/')) by {
            if cur.push(s[0]).contains('/') {
                let k = choose|k: int| 0 <= k < cur.push(s[0]).len() && cur.push(s[0])[k] == '/';
                if k < cur.len() {
                    assert(cur[k] == '/');
                }
            }
        }
        lemma_split_slash_free(s.drop_first(), cur.push(s[0]));
    }
}

proof fn lemma_normalize_plain(p: Seq<Seq<char>>)
    requires
        all_slash_free(p),
    ensures
        all_plain(normalize(p)),
    decreases p.len(),
{
    if p.len() > 0 {
        assert(all_slash_free(p.drop_last())) by {
            assert forall|i: int| 0 <= i < p.drop_last().len() implies (#[trigger] p.drop_last()[i]).len() > 0
                && !p.drop_last()[i].contains('/') by {
                assert(p.drop_last()[i] == p[i]);
            }
        }
        lemma_normalize_plain(p.drop_last());
        let r = normalize(p.drop_last());
        assert(p.last() == p[p.len() - 1]);
        if r.len() > 0 {
            assert forall|i: int| 0 <= i < r.drop_last().len() implies #[trigger] is_plain_component(
                r.drop_last()[i],
            ) by {
                assert(r.drop_last()[i] == r[i]);
            }
        }
        if !is_dotdot(p.last()) && !is_dot(p.last()) {
            assert(p[p.len() - 1].len() > 0 && !p[p.len() - 1].contains('/'));
            assert forall|i: int| 0 <= i < r.push(p.last()).len() implies #[trigger] is_plain_component(
                r.push(p.last())[i],
            ) by {
                if i < r.len() {
                    assert(r.push(p.last())[i] == r[i]);
                }
            }
        }
    }
}

proof fn lemma_normalize_fixed(p: Seq<Seq<char>>)
    requires
        all_plain(p),
    ensures
        normalize(p) == p,
    decreases p.len(),
{
    if p.len() > 0 {
        assert(all_plain(p.drop_last())) by {
            assert forall|i: int| 0 <= i < p.drop_last().len() implies #[trigger] is_plain_component(
                p.drop_last()[i],
            ) by {
                assert(p.drop_last()[i] == p[i]);
            }
        }
        lemma_normalize_fixed(p.drop_last());
        assert(is_plain_component(p[p.len() - 1]));
        assert(p.drop_last().push(p.last()) =~= p);
    }
}

/// A list of non-empty components without `/` survives joining and
/// splitting again, and the joined path starts with `/`.
pub proof fn law_join_split_roundtrip(p: Seq<Seq<char>>)
    requires
        all_slash_free(p),
    ensures
        components(join_spec(p)) == p,
        join_spec(p)[0] == '/',
{
    if p.len() == 0 {
        let s = seq!['/'];
        assert(join_spec(p) == s);
        assert(s.drop_first() =~= Seq::<char>::empty());
        assert(split_from(s.drop_first(), Seq::empty()) == Seq::<Seq<char>>::empty());
        assert(components(s) == Seq::<Seq<char>>::empty());
        assert(p =~= Seq::<Seq<char>>::empty());
    } else {
        lemma_split_joined(p);
        lemma_joined_cons(p);
    }
}

/// A resolved path is absolute and canonical: it starts with `/`, holds no
/// empty, `.` or `..` component, and is the join of its own components.
pub proof fn law_resolved_path_is_canonical(dist: Seq<char>, cur: Seq<char>)
    requires
        dist.len() > 0,
    ensures
        resolved_path(dist, cur)[0] == '/',
        all_plain(components(resolved_path(dist, cur))),
        join_spec(components(resolved_path(dist, cur))) == resolved_path(dist, cur),
{
    lemma_split_slash_free(dist, Seq::empty());
    lemma_split_slash_free(cur, Seq::empty());
    let a = components(cur);
    let b = components(dist);
    assert(all_slash_free(a + b)) by {
        assert forall|i: int| 0 <= i < (a + b).len() implies (#[trigger] (a + b)[i]).len() > 0 && !(a
            + b)[i].contains('/') by {
            if i < a.len() {
                assert((a + b)[i] == a[i]);
            } else {
                assert((a + b)[i] == b[i - a.len()]);
            }
        }
    }
    let q = if dist[0] != '/' {
        normalize(a + b)
    } else {
        normalize(b)
    };
    lemma_normalize_plain(a + b);
    lemma_normalize_plain(b);
    assert(all_slash_free(q)) by {
        assert forall|i: int| 0 <= i < q.len() implies (#[trigger] q[i]).len() > 0 && !q[i].contains('/') by {
            assert(is_plain_component(q[i]));
        }
    }
    law_join_split_roundtrip(q);
}

/// Resolving an already resolved path gives it back, whatever the current
/// directory: `cd` to the result of a resolution is a no-op on the path.
pub proof fn law_get_path_idempotent(dist: Seq<char>, cur: Seq<char>, other_cur: Seq<char>)
    requires
        dist.len() > 0,
    ensures
        resolved_path(resolved_path(dist, cur), other_cur) == resolved_path(dist, cur),
{
    law_resolved_path_is_canonical(dist, cur);
    let r = resolved_path(dist, cur);
    lemma_normalize_fixed(components(r));
}

proof fn lemma_subsequence_len(r: Seq<Seq<char>>, p: Seq<Seq<char>>)
    requires
        is_subsequence(r, p),
    ensures
        r.len() <= p.len(),
    decreases p.len(),
{
    if r.len() > 0 && p.len() > 0 {
        if r.last() == p.last() {
            lemma_subsequence_len(r.drop_last(), p.drop_last());
        } else {
            lemma_subsequence_len(r, p.drop_last());
        }
    }
}

proof fn lemma_subsequence_drop_last(r: Seq<Seq<char>>, p: Seq<Seq<char>>)
    requires
        is_subsequence(r, p),
        r.len() > 0,
    ensures
        is_subsequence(r.drop_last(), p),
    decreases p.len(), 0int,
{
    let q = p.drop_last();
    assert(q.push(p.last()) =~= p);
    if r.last() == p.last() {
        lemma_subsequence_push_any(r.drop_last(), q, p.last());
    } else {
        lemma_subsequence_drop_last(r, q);
        lemma_subsequence_push_any(r.drop_last(), q, p.last());
    }
}

proof fn lemma_subsequence_push_any(r: Seq<Seq<char>>, p: Seq<Seq<char>>, x: Seq<char>)
    requires
        is_subsequence(r, p),
    ensures
        is_subsequence(r, p.push(x)),
    decreases p.len(), 1int,
{
    let q = p.push(x);
    assert(q.drop_last() =~= p);
    if r.len() > 0 && r.last() == x {
        lemma_subsequence_drop_last(r, p);
    }
}

proof fn lemma_normalize_subsequence(p: Seq<Seq<char>>)
    ensures
        is_subsequence(normalize(p), p),
        no_dots(normalize(p)),
    decreases p.len(),
{
    if p.len() > 0 {
        let q = p.drop_last();
        let x = p.last();
        lemma_normalize_subsequence(q);
        let r = normalize(q);
        assert(q.push(x) =~= p);
        if is_dotdot(x) {
            if r.len() > 0 {
                lemma_subsequence_drop_last(r, q);
                lemma_subsequence_push_any(r.drop_last(), q, x);
                assert forall|i: int| 0 <= i < r.drop_last().len() implies !is_dot(
                    #[trigger] r.drop_last()[i],
                ) && !is_dotdot(r.drop_last()[i]) by {
                    assert(r.drop_last()[i] == r[i]);
                }
            } else {
                lemma_subsequence_push_any(r, q, x);
            }
        } else if is_dot(x) {
            lemma_subsequence_push_any(r, q, x);
        } else {
            assert(r.push(x).drop_last() =~= r);
            assert forall|i: int| 0 <= i < r.push(x).len() implies !is_dot(#[trigger] r.push(x)[i])
                && !is_dotdot(r.push(x)[i]) by {
                if i < r.len() {
                    assert(r.push(x)[i] == r[i]);
                }
            }
        }
    }
}

proof fn lemma_normalize_no_dots(p: Seq<Seq<char>>)
    requires
        no_dots(p),
    ensures
        normalize(p) == p,
    decreases p.len(),
{
    if p.len() > 0 {
        assert(no_dots(p.drop_last())) by {
            assert forall|i: int| 0 <= i < p.drop_last().len() implies !is_dot(#[trigger] p.drop_last()[i])
                && !is_dotdot(p.drop_last()[i]) by {
                assert(p.drop_last()[i] == p[i]);
            }
        }
        lemma_normalize_no_dots(p.drop_last());
        assert(!is_dot(p[p.len() - 1]) && !is_dotdot(p[p.len() - 1]));
        assert(p.drop_last().push(p.last()) =~= p);
    }
}

/// Resolving `.` and `..` leaves neither of them, keeps a subsequence of the
/// components (so never more of them), and changes nothing when done again.
pub proof fn law_normalize_canonical(p: Seq<Seq<char>>)
    ensures
        no_dots(normalize(p)),
        is_subsequence(normalize(p), p),
        normalize(p).len() <= p.len(),
        normalize(normalize(p)) == normalize(p),
{
    lemma_normalize_subsequence(p);
    lemma_subsequence_len(normalize(p), p);
    lemma_normalize_no_dots(normalize(p));
}

} // verus!
