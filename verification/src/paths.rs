//! Path text: joining, absoluteness, components, prefix stripping, and the
//! expansion of `~` and relative paths. Paths are UTF-8 strings with `/` as
//! separator, read by the Unix rules of `std::path`.
use std::path::Path;
use vstd::prelude::*;

use crate::error::{Error, ErrorView};
use crate::text::{chars_of, has_char, owned, push_all, split_on, string_from_chars, views};

verus! {

broadcast use vstd::string::group_string_axioms;

/// A path is absolute when it starts at the root.
pub open spec fn is_absolute_path(p: Seq<char>) -> bool {
    p.len() > 0 && p[0] == '/'
}

/// `base` joined with `p` (`PathBuf::push`): an absolute `p` replaces `base`;
/// otherwise `p` is appended after a separator, unless `base` is empty or
/// already ends with one.
pub open spec fn path_join(base: Seq<char>, p: Seq<char>) -> Seq<char> {
    if is_absolute_path(p) {
        p
    } else if base.len() == 0 || base.last() == '/' {
        base + p
    } else {
        base + seq!['/'] + p
    }
}

/// Whether `c` is a component on its own: the pieces between separators,
/// with the empty ones and `.` left out.
pub open spec fn is_body_component(c: Seq<char>) -> bool {
    c.len() > 0 && c != seq!['.']
}

/// The components of `s` after any root or leading `.`: the pieces between
/// `/` separators, without empty pieces (repeated or trailing separators) and
/// without `.`.
pub open spec fn body_components(s: Seq<char>) -> Seq<Seq<char>> {
    split_on(s, '/').filter(body_component_pred())
}

pub open spec fn body_component_pred() -> spec_fn(Seq<char>) -> bool {
    |c: Seq<char>| is_body_component(c)
}

/// A relative path that starts with the current directory: `.` alone or
/// followed by a separator.
pub open spec fn starts_at_cur_dir(p: Seq<char>) -> bool {
    p.len() > 0 && p[0] == '.' && (p.len() == 1 || p[1] == '/')
}

/// The text of each component of a path, in order, by the Unix rules of
/// `Path::components` (each component written as by `Component::as_os_str`):
/// a leading `/` is the root component, a leading `.` the current-directory
/// component, and the rest are the pieces between separators, without empty
/// pieces and without `.`.
pub open spec fn path_components(p: Seq<char>) -> Seq<Seq<char>> {
    if is_absolute_path(p) {
        seq![seq!['/']] + body_components(p.skip(1))
    } else if starts_at_cur_dir(p) {
        seq![seq!['.']] + body_components(p.skip(1))
    } else {
        body_components(p)
    }
}

/// What remains of `p` after the leading components of `base`, or `None`
/// when `base` is not a component-wise prefix of `p` (`Path::strip_prefix`,
/// on Unix).
pub uninterp spec fn path_strip_prefix(p: Seq<char>, base: Seq<char>) -> Option<Seq<char>>;

/// Whether `p` is absolute.
pub fn is_absolute(p: &str) -> (r: bool)
    ensures
        r == is_absolute_path(p@),
{
    let v = chars_of(p);
    v.len() > 0 && v[0] == '/'
}

/// `base` joined with `p`.
pub fn join(base: &str, p: &str) -> (r: String)
    ensures
        r@ == path_join(base@, p@),
{
    let pv = chars_of(p);
    if pv.len() > 0 && pv[0] == '/' {
        return string_from_chars(pv.as_slice());
    }
    let mut v = chars_of(base);
    if v.len() > 0 && v[v.len() - 1] != '/' {
        v.push('/');
    }
    push_all(&mut v, pv.as_slice());
    string_from_chars(v.as_slice())
}

proof fn lemma_split_on_nonempty(s: Seq<char>, sep: char)
    ensures
        split_on(s, sep).len() >= 1,
    decreases s.len(),
{
    if s.len() > 0 {
        lemma_split_on_nonempty(s.drop_first(), sep);
    }
}

/// Splitting at a separator splits the two sides apart.
proof fn lemma_split_on_sep(x: Seq<char>, y: Seq<char>, sep: char)
    ensures
        split_on(x + seq![sep] + y, sep) == split_on(x, sep) + split_on(y, sep),
    decreases x.len(),
{
    let z = x + seq![sep] + y;
    if x.len() == 0 {
        assert(z.drop_first() =~= y);
        assert(z[0] == sep);
        assert(split_on(x, sep) == seq![Seq::<char>::empty()]);
    } else {
        assert(z.drop_first() =~= x.drop_first() + seq![sep] + y);
        assert(z[0] == x[0]);
        lemma_split_on_sep(x.drop_first(), y, sep);
        lemma_split_on_nonempty(x.drop_first(), sep);
        let a = split_on(x.drop_first(), sep);
        let b = split_on(y, sep);
        if x[0] == sep {
            assert(split_on(z, sep) =~= split_on(x, sep) + b);
        } else {
            assert((a + b).update(0, seq![x[0]] + (a + b)[0]) =~= a.update(0, seq![x[0]] + a[0])
                + b);
        }
    }
}

/// Text without the separator is a single piece.
proof fn lemma_split_on_plain(s: Seq<char>, sep: char)
    requires
        !has_char(s, sep),
    ensures
        split_on(s, sep) == seq![s],
    decreases s.len(),
{
    if s.len() == 0 {
        assert(s =~= Seq::<char>::empty());
    } else {
        assert(!has_char(s.drop_first(), sep)) by {
            if has_char(s.drop_first(), sep) {
                let i = choose|i: int| 0 <= i < s.drop_first().len() && s.drop_first()[i] == sep;
                assert(s[i + 1] == sep);
            }
        }
        lemma_split_on_plain(s.drop_first(), sep);
        assert(s[0] != sep);
        assert(seq![s[0]] + s.drop_first() =~= s);
    }
}

/// No piece of a split holds the separator.
proof fn lemma_split_on_pieces(s: Seq<char>, sep: char)
    ensures
        forall|i: int|
            0 <= i < split_on(s, sep).len() ==> !has_char(#[trigger] split_on(s, sep)[i], sep),
    decreases s.len(),
{
    if s.len() > 0 {
        lemma_split_on_pieces(s.drop_first(), sep);
        lemma_split_on_nonempty(s.drop_first(), sep);
        let rest = split_on(s.drop_first(), sep);
        if s[0] != sep {
            let first = seq![s[0]] + rest[0];
            assert(!has_char(first, sep)) by {
                if has_char(first, sep) {
                    let i = choose|i: int| 0 <= i < first.len() && first[i] == sep;
                    if i > 0 {
                        assert(rest[0][i - 1] == sep);
                    }
                }
            }
            assert forall|i: int| 0 <= i < split_on(s, sep).len() implies !has_char(
                #[trigger] split_on(s, sep)[i],
                sep,
            ) by {
                if i > 0 {
                    assert(split_on(s, sep)[i] == rest[i]);
                }
            }
        } else {
            assert forall|i: int| 0 <= i < split_on(s, sep).len() implies !has_char(
                #[trigger] split_on(s, sep)[i],
                sep,
            ) by {
                if i > 0 {
                    assert(split_on(s, sep)[i] == rest[i - 1]);
                }
            }
        }
    }
}

/// The body components of text joined at a separator are those of each side.
proof fn lemma_body_join(x: Seq<char>, y: Seq<char>)
    ensures
        body_components(x + seq!['/'] + y) == body_components(x) + body_components(y),
{
    lemma_split_on_sep(x, y, '/');
    Seq::filter_distributes_over_add(split_on(x, '/'), split_on(y, '/'), body_component_pred());
}

/// A single component without separators is its own body.
pub proof fn lemma_body_single(c: Seq<char>)
    requires
        !has_char(c, '/'),
    ensures
        is_body_component(c) ==> body_components(c) == seq![c],
        !is_body_component(c) ==> body_components(c) == Seq::<Seq<char>>::empty(),
{
    lemma_split_on_plain(c, '/');
    reveal(Seq::filter);
    let one = seq![c];
    assert(one.drop_last() =~= Seq::<Seq<char>>::empty());
    assert(one.drop_last().filter(body_component_pred()) =~= Seq::<Seq<char>>::empty());
}

pub proof fn lemma_body_empty_and_dot()
    ensures
        body_components(Seq::<char>::empty()) == Seq::<Seq<char>>::empty(),
        body_components(seq!['.']) == Seq::<Seq<char>>::empty(),
{
    lemma_body_single(Seq::<char>::empty());
    lemma_body_single(seq!['.']);
}

/// Components after a separator add to those before it.
proof fn lemma_components_sep(s: Seq<char>, y: Seq<char>)
    requires
        s.len() > 0,
    ensures
        path_components(s + seq!['/'] + y) == path_components(s) + body_components(y),
{
    let j = s + seq!['/'] + y;
    assert(j[0] == s[0]);
    if is_absolute_path(s) || starts_at_cur_dir(s) {
        assert(j.skip(1) =~= s.skip(1) + seq!['/'] + y);
        lemma_body_join(s.skip(1), y);
        if starts_at_cur_dir(s) {
            assert(j[1] == '/' || j[1] == s[1]);
        }
    } else {
        if s[0] == '.' {
            assert(j[1] == s[1]);
        }
        lemma_body_join(s, y);
    }
}

/// The components of a path with `y` joined onto it (`Path::join` with a
/// relative `y`): those of the path, then the body components of `y`.
pub proof fn lemma_components_join(s: Seq<char>, y: Seq<char>)
    requires
        s.len() > 0,
        !is_absolute_path(y),
    ensures
        path_components(path_join(s, y)) == path_components(s) + body_components(y),
{
    if s.last() == '/' {
        let t = s.drop_last();
        assert(s =~= t + seq!['/'] + Seq::<char>::empty());
        assert(s + y =~= t + seq!['/'] + y);
        lemma_body_empty_and_dot();
        if t.len() == 0 {
            assert((s + y).skip(1) =~= y);
            assert(s.skip(1) =~= Seq::<char>::empty());
        } else {
            lemma_components_sep(t, y);
            lemma_components_sep(t, Seq::<char>::empty());
        }
    } else {
        lemma_components_sep(s, y);
    }
}

/// A component list as `Path::components` gives them: the first may be the
/// root or the current directory, every other one is a name without
/// separators, neither empty nor `.`.
pub open spec fn well_formed_components(cs: Seq<Seq<char>>) -> bool {
    forall|i: int|
        0 <= i < cs.len() ==> (i == 0 && (cs[i] == seq!['/'] || cs[i] == seq!['.'])) || (
        !has_char(#[trigger] cs[i], '/') && is_body_component(cs[i]))
}

proof fn lemma_body_well_formed(s: Seq<char>)
    ensures
        forall|i: int|
            0 <= i < body_components(s).len() ==> !has_char(#[trigger] body_components(s)[i], '/')
                && is_body_component(body_components(s)[i]),
{
    let pieces = split_on(s, '/');
    lemma_split_on_pieces(s, '/');
    assert forall|i: int| 0 <= i < body_components(s).len() implies !has_char(
        #[trigger] body_components(s)[i],
        '/',
    ) && is_body_component(body_components(s)[i]) by {
        let c = body_components(s)[i];
        pieces.lemma_filter_pred(body_component_pred(), i);
        assert(pieces.filter(body_component_pred()).contains(c));
        pieces.lemma_filter_contains_rev(body_component_pred(), c);
        let k = choose|k: int| 0 <= k < pieces.len() && pieces[k] == c;
        assert(!has_char(pieces[k], '/'));
    }
}

/// What `Path::components` gives is well formed.
pub proof fn lemma_components_well_formed(p: Seq<char>)
    ensures
        well_formed_components(path_components(p)),
{
    let cs = path_components(p);
    if is_absolute_path(p) || starts_at_cur_dir(p) {
        lemma_body_well_formed(p.skip(1));
        assert forall|i: int| 0 < i < cs.len() implies !has_char(#[trigger] cs[i], '/')
            && is_body_component(cs[i]) by {
            assert(cs[i] == body_components(p.skip(1))[i - 1]);
        }
    } else {
        lemma_body_well_formed(p);
    }
}

/// The components of `p` (`Path::components`, on Unix), each written out as
/// text.
#[verifier::external_body]
pub(crate) fn components(p: &str) -> (r: Vec<String>)
    ensures
        views(r@) == path_components(p@),
{
    Path::new(p).components().map(|c| c.as_os_str().to_string_lossy().into_owned()).collect()
}

/// `Path::strip_prefix`: what remains of `p` after `base`; `None` exactly when
/// `base` is not a prefix of `p` by whole components, as `Path::starts_with`
/// decides. As its documentation says, the remainder joined onto `base`
/// yields `p`, paths being equal when their components are; an empty
/// remainder therefore means that `base` names `p` (a trailing separator adds
/// no component).
#[verifier::external_body]
pub(crate) fn strip_prefix(p: &str, base: &str) -> (r: Option<String>)
    ensures
        r is Some <==> path_components(base@).is_prefix_of(path_components(p@)),
        r is Some <==> path_strip_prefix(p@, base@) is Some,
        r matches Some(s) ==> s@ == path_strip_prefix(p@, base@)->0,
        r matches Some(s) ==> path_components(path_join(base@, s@)) == path_components(p@),
        r matches Some(s) ==> (s@.len() == 0 ==> path_components(base@) == path_components(p@)),
{
    Path::new(p).strip_prefix(base).ok().map(|s| s.to_string_lossy().into_owned())
}

/// `dirs::home_dir`: the current user's home directory, if one can be
/// determined. It depends on the environment, so nothing is stated of it.
/// The library's paths are text: a home directory that is not UTF-8 is
/// converted lossily.
#[verifier::external_body]
pub(crate) fn home_dir_from_env() -> (r: Option<String>) {
    dirs::home_dir().map(|p| p.to_string_lossy().into_owned())
}

/// The current user's home directory.
pub fn home_dir() -> (r: Result<String, Error>)
    ensures
        r matches Err(e) ==> e@ == ErrorView::HomeNotFound,
{
    match home_dir_from_env() {
        Some(h) => Ok(h),
        None => Err(Error::HomeNotFound),
    }
}

/// The home directory, or the error for a home directory that is needed and
/// missing.
pub open spec fn home_or_error(home: Option<Seq<char>>) -> Result<Seq<char>, ErrorView> {
    match home {
        Some(h) => Ok(h),
        None => Err(ErrorView::HomeNotFound),
    }
}

pub open spec fn tilde() -> Seq<char> {
    seq!['~']
}

pub open spec fn tilde_slash() -> Seq<char> {
    seq!['~', '/']
}

/// Expansion of `path`: `~` and `~/x` go to the home directory, an absolute
/// path stays as it is, a relative path goes under `base`, or under the home
/// directory when there is no base.
pub open spec fn expand_path_spec(
    path: Seq<char>,
    base: Option<Seq<char>>,
    home: Option<Seq<char>>,
) -> Result<Seq<char>, ErrorView> {
    if path == tilde() {
        home_or_error(home)
    } else if tilde_slash().is_prefix_of(path) {
        match home {
            Some(h) => Ok(path_join(h, path.skip(2))),
            None => Err(ErrorView::HomeNotFound),
        }
    } else if is_absolute_path(path) {
        Ok(path)
    } else {
        match base {
            Some(b) => Ok(path_join(b, path)),
            None => match home {
                Some(h) => Ok(path_join(h, path)),
                None => Err(ErrorView::HomeNotFound),
            },
        }
    }
}

pub open spec fn opt_view(o: Option<&str>) -> Option<Seq<char>> {
    match o {
        Some(s) => Some(s@),
        None => None,
    }
}

pub open spec fn opt_string_view(o: Option<String>) -> Option<Seq<char>> {
    match o {
        Some(s) => Some(s@),
        None => None,
    }
}

/// The view of a path result.
pub open spec fn path_result_view(r: Result<String, Error>) -> Result<Seq<char>, ErrorView> {
    match r {
        Ok(s) => Ok(s@),
        Err(e) => Err(e@),
    }
}

/// Expansion of `path` against `base` with the given home directory.
pub fn expand_path_in(path: &str, base: Option<&str>, home: Option<&str>) -> (r: Result<String, Error>)
    ensures
        path_result_view(r) == expand_path_spec(path@, opt_view(base), opt_view(home)),
{
    let v = chars_of(path);
    if v.len() == 1 && v[0] == '~' {
        assert(v@ =~= tilde());
        return match home {
            Some(h) => Ok(owned(h)),
            None => Err(Error::HomeNotFound),
        };
    }
    assert(v@.len() == 1 && v@[0] == '~' ==> v@ =~= tilde());
    if v.len() >= 2 && v[0] == '~' && v[1] == '/' {
        assert(tilde_slash().is_prefix_of(v@)) by {
            assert(tilde_slash() =~= v@.subrange(0, 2));
        }
        return match home {
            Some(h) => {
                let rest = string_from_chars(vstd::slice::slice_subrange(v.as_slice(), 2, v.len()));
                assert(v@.subrange(2, v@.len() as int) =~= v@.skip(2));
                Ok(join(h, rest.as_str()))
            },
            None => Err(Error::HomeNotFound),
        };
    }
    assert(!tilde_slash().is_prefix_of(v@)) by {
        if tilde_slash().is_prefix_of(v@) {
            assert(v@.subrange(0, 2)[0] == '~');
            assert(v@.subrange(0, 2)[1] == '/');
        }
    }
    if v.len() > 0 && v[0] == '/' {
        return Ok(owned(path));
    }
    match base {
        Some(b) => Ok(join(b, path)),
        None => match home {
            Some(h) => Ok(join(h, path)),
            None => Err(Error::HomeNotFound),
        },
    }
}

/// Expansion of `path`: `~` / `~/x` go to the home directory, an absolute path
/// stays, a relative one goes under `base` or, without a base, under the home
/// directory. The home directory comes from the environment.
pub fn expand_path(path: &str, base: Option<&str>) -> (r: Result<String, Error>)
    ensures
        exists|home: Option<Seq<char>>|
            path_result_view(r) == #[trigger] expand_path_spec(path@, opt_view(base), home),
{
    let home = home_dir_from_env();
    let r = match &home {
        Some(h) => expand_path_in(path, base, Some(h.as_str())),
        None => expand_path_in(path, base, None),
    };
    assert(path_result_view(r) == expand_path_spec(path@, opt_view(base), opt_string_view(home)));
    r
}

/// Expansion of a config root: a bare relative root goes under the home
/// directory.
pub fn expand_config_root(root: &str) -> (r: Result<String, Error>)
    ensures
        exists|home: Option<Seq<char>>|
            path_result_view(r) == #[trigger] expand_path_spec(root@, None, home),
{
    expand_path(root, None)
}

} // verus!
