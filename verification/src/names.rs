//! Repo names: which ones GitHub allows, what is made of the ones it does not, and how a name
//! is read out of whatever somebody pasted.

use vstd::prelude::*;

#[allow(unused_imports)]
use crate::text::{
    after, alphanumeric, before, drop_prefix, drop_suffix, ends_with, is_alphanumeric, lemma_run, lemma_split_first,
    lemma_split_whole, lemma_trim_right_stops, opt_text, run, split, split_on, split_once_at, starts_with,
    strip_prefix_of, strip_suffix_of, texts, to_chars, trim, trim_left, trim_of, trim_right, trim_space, trimmed,
    CharClass,
};

verus! {

/// The characters of an owner, and with `dots` those of a repo's own name.
pub open spec fn name_char(c: char, dots: bool) -> bool {
    is_alphanumeric(c) || c == '-' || (dots && (c == '.' || c == '_'))
}

pub open spec fn all_name_chars(s: Seq<char>, dots: bool) -> bool {
    forall|i: int| 0 <= i < s.len() ==> name_char(#[trigger] s[i], dots)
}

/// GitHub's shape of an owner.
pub open spec fn owner_allowed(s: Seq<char>) -> bool {
    1 <= s.len() <= 39 && all_name_chars(s, false)
}

/// GitHub's shape of a repo's own name.
pub open spec fn name_allowed(s: Seq<char>) -> bool {
    1 <= s.len() <= 100 && all_name_chars(s, true)
}

/// `owner/name` with both parts as GitHub allows them.
pub open spec fn full_name_allowed(s: Seq<char>) -> bool {
    s.contains('/') && owner_allowed(before(s, '/')) && name_allowed(after(s, '/'))
}

/// `owner/name` in GitHub's characters, whatever the lengths.
pub open spec fn queryable(s: Seq<char>) -> bool {
    &&& s.contains('/')
    &&& before(s, '/').len() > 0
    &&& after(s, '/').len() > 0
    &&& all_name_chars(before(s, '/'), true)
    &&& all_name_chars(after(s, '/'), true)
}

fn is_name_char(c: char, dots: bool) -> (r: bool)
    ensures
        r == name_char(c, dots),
{
    alphanumeric(c) || c == '-' || (dots && (c == '.' || c == '_'))
}

fn only_name_chars(v: &Vec<char>, dots: bool) -> (r: bool)
    ensures
        r == all_name_chars(v@, dots),
{
    let mut i: usize = 0;
    while i < v.len()
        invariant
            i <= v.len(),
            forall|j: int| 0 <= j < i ==> name_char(#[trigger] v@[j], dots),
        decreases v.len() - i,
    {
        if !is_name_char(v[i], dots) {
            return false;
        }
        i += 1;
    }
    true
}

/// GitHub's own shapes. Anything else is a typo or a probe.
pub fn valid_owner(s: &str) -> (r: bool)
    ensures
        r == owner_allowed(s@),
{
    let v = to_chars(s);
    1 <= v.len() && v.len() <= 39 && only_name_chars(&v, false)
}

pub fn valid_name(s: &str) -> (r: bool)
    ensures
        r == name_allowed(s@),
{
    let v = to_chars(s);
    1 <= v.len() && v.len() <= 100 && only_name_chars(&v, true)
}

/// Whether a name may be looked up at all: junk reaches neither GitHub nor the store.
pub fn valid_full_name(s: &str) -> (r: bool)
    ensures
        r == full_name_allowed(s@),
{
    match split_once_at(s, '/') {
        Some((owner, name)) => valid_owner(owner) && valid_name(name),
        None => false,
    }
}

/// The two parts of a name that may be spliced into a query.
pub fn query_parts<'a>(s: &'a str) -> (r: Option<(&'a str, &'a str)>)
    ensures
        match r {
            Some((owner, name)) => queryable(s@) && owner@ == before(s@, '/') && name@ == after(
                s@,
                '/',
            ),
            None => !queryable(s@),
        },
{
    match split_once_at(s, '/') {
        Some((owner, name)) => {
            if !owner.is_empty() && !name.is_empty() && only_name_chars(&to_chars(owner), true)
                && only_name_chars(&to_chars(name), true) {
                Some((owner, name))
            } else {
                None
            }
        },
        None => None,
    }
}

/// Whether a character is a letter, a digit or a hyphen.
pub open spec fn plain_char(c: char) -> bool {
    'a' <= c <= 'z' || 'A' <= c <= 'Z' || '0' <= c <= '9' || c == '-'
}

/// A name may be looked up exactly where it is an owner of 1 to 39 letters, digits and hyphens, a
/// slash, and 1 to 100 letters, digits, hyphens, dots and underscores.
pub proof fn law_names_have_githubs_shape(s: Seq<char>, owner: Seq<char>, name: Seq<char>)
    requires
        s == owner + "/"@ + name,
        !owner.contains('/'),
    ensures
        full_name_allowed(s) <==> {
            &&& 1 <= owner.len() <= 39
            &&& 1 <= name.len() <= 100
            &&& forall|i: int| 0 <= i < owner.len() ==> plain_char(#[trigger] owner[i])
            &&& forall|i: int|
                0 <= i < name.len() ==> plain_char(#[trigger] name[i]) || name[i] == '.' || name[i]
                    == '_'
        },
        queryable(s) <==> {
            &&& 1 <= owner.len()
            &&& 1 <= name.len()
            &&& forall|i: int|
                0 <= i < owner.len() ==> plain_char(#[trigger] owner[i]) || owner[i] == '.'
                    || owner[i] == '_'
            &&& forall|i: int|
                0 <= i < name.len() ==> plain_char(#[trigger] name[i]) || name[i] == '.' || name[i]
                    == '_'
        },
{
    reveal_strlit("/");
    lemma_run(s, '/');
    assert(s[owner.len() as int] == '/');
    assert forall|i: int| 0 <= i < owner.len() implies s[i] != '/' by {
        assert(owner[i] == s[i]);
        if owner[i] == '/' {
            assert(owner.contains('/'));
        }
    }
    assert(run(s, '/') == owner.len());
    assert(before(s, '/') =~= owner);
    assert(after(s, '/') =~= name);
    assert(forall|c: char| #[trigger] name_char(c, false) <==> plain_char(c));
    assert(forall|c: char|
        #[trigger] name_char(c, true) <==> plain_char(c) || c == '.' || c == '_');
    assert(all_name_chars(owner, false) <==> forall|i: int|
        0 <= i < owner.len() ==> plain_char(#[trigger] owner[i]));
    assert(all_name_chars(name, true) <==> forall|i: int|
        0 <= i < name.len() ==> plain_char(#[trigger] name[i]) || name[i] == '.' || name[i] == '_');
    assert(all_name_chars(owner, true) <==> forall|i: int|
        0 <= i < owner.len() ==> plain_char(#[trigger] owner[i]) || owner[i] == '.' || owner[i]
            == '_');
}

/// A name without a slash names no repo.
pub proof fn law_a_repo_has_an_owner(s: Seq<char>)
    requires
        !s.contains('/'),
    ensures
        !full_name_allowed(s),
        !queryable(s),
{
}

// ---------------------------------------------------------------- printing a name

/// The characters of a text that a name may have.
pub open spec fn kept(s: Seq<char>, dots: bool) -> Seq<char>
    decreases s.len(),
{
    if s.len() == 0 {
        Seq::empty()
    } else if name_char(s.last(), dots) {
        kept(s.drop_last(), dots).push(s.last())
    } else {
        kept(s.drop_last(), dots)
    }
}

/// A name as it is printed: held to GitHub's characters, segment by segment. Without a
/// separator there is no owner to tell apart, and all of it is held to the looser set.
pub open spec fn shown_name(s: Seq<char>) -> Seq<char> {
    let owner = if s.contains('/') {
        kept(before(s, '/'), false)
    } else {
        Seq::empty()
    };
    let name = kept(
        if s.contains('/') {
            after(s, '/')
        } else {
            s
        },
        true,
    );
    if owner.len() == 0 || name.len() == 0 {
        owner + name
    } else {
        owner + "/"@ + name
    }
}

fn keep(s: &str, dots: bool) -> (r: String)
    ensures
        r@ == kept(s@, dots),
{
    let v = to_chars(s);
    let mut out = String::new();
    let mut i: usize = 0;
    assert(s@.take(0) =~= Seq::<char>::empty());
    while i < v.len()
        invariant
            i <= v.len(),
            v@ == s@,
            out@ == kept(s@.take(i as int), dots),
        decreases v.len() - i,
    {
        assert(s@.take(i + 1).drop_last() =~= s@.take(i as int));
        assert(s@.take(i + 1).last() == v@[i as int]);
        if is_name_char(v[i], dots) {
            out.push(v[i]);
        }
        i += 1;
    }
    assert(s@.take(i as int) =~= s@);
    out
}

/// GitHub's charset, applied to a name we are about to print rather than look up.
///
/// A refused name still reaches the SVG, and a URL can carry bidi controls or C0 bytes that
/// reorder the line they land in. Escaping keeps the markup intact; this keeps the display
/// intact.
pub fn display_name(full_name: &str) -> (r: String)
    ensures
        r@ == shown_name(full_name@),
{
    let (owner, name): (String, String) = match split_once_at(full_name, '/') {
        Some((owner, name)) => (keep(owner, false), keep(name, true)),
        None => (String::new(), keep(full_name, true)),
    };
    let mut out = owner;
    if !out.as_str().is_empty() && !name.as_str().is_empty() {
        out.append("/");
    }
    out.append(name.as_str());
    out
}

proof fn lemma_kept_chars(s: Seq<char>, dots: bool)
    ensures
        all_name_chars(kept(s, dots), dots),
    decreases s.len(),
{
    if s.len() > 0 {
        lemma_kept_chars(s.drop_last(), dots);
    }
}

proof fn lemma_kept_same(s: Seq<char>, dots: bool)
    requires
        all_name_chars(s, dots),
    ensures
        kept(s, dots) == s,
    decreases s.len(),
{
    if s.len() > 0 {
        let t = s.drop_last();
        assert forall|i: int| 0 <= i < t.len() implies name_char(#[trigger] t[i], dots) by {
            assert(t[i] == s[i]);
        }
        lemma_kept_same(t, dots);
        assert(s.last() == s[s.len() - 1]);
        assert(t.push(s.last()) =~= s);
    } else {
        assert(s =~= Seq::<char>::empty());
    }
}

/// A printed name keeps every character that GitHub allows where it stands, in the order that
/// they had: nothing is put in their place but the slash between owner and name.
pub proof fn law_printing_keeps_what_github_allows(s: Seq<char>, owner: Seq<char>, name: Seq<char>)
    requires
        s == owner + "/"@ + name,
        !owner.contains('/'),
    ensures
        ({
            let o = owner.filter(|c: char| plain_char(c));
            let n = name.filter(|c: char| plain_char(c) || c == '.' || c == '_');
            shown_name(s) == if o.len() > 0 && n.len() > 0 {
                o + "/"@ + n
            } else {
                o + n
            }
        }),
{
    reveal_strlit("/");
    lemma_run(s, '/');
    assert(s[owner.len() as int] == '/');
    assert forall|i: int| 0 <= i < owner.len() implies s[i] != '/' by {
        assert(owner[i] == s[i]);
        if owner[i] == '/' {
            assert(owner.contains('/'));
        }
    }
    assert(run(s, '/') == owner.len());
    assert(before(s, '/') =~= owner);
    assert(after(s, '/') =~= name);
    lemma_kept_filters(owner, false);
    lemma_kept_filters(name, true);
    lemma_same_chars(owner, false);
    lemma_same_chars(name, true);
}

proof fn lemma_kept_filters(s: Seq<char>, dots: bool)
    ensures
        kept(s, dots) == s.filter(|c: char| name_char(c, dots)),
    decreases s.len(),
{
    reveal(Seq::filter);
    if s.len() > 0 {
        lemma_kept_filters(s.drop_last(), dots);
    } else {
        assert(kept(s, dots) =~= s.filter(|c: char| name_char(c, dots)));
    }
}

proof fn lemma_same_chars(s: Seq<char>, dots: bool)
    ensures
        !dots ==> s.filter(|c: char| name_char(c, dots)) == s.filter(|c: char| plain_char(c)),
        dots ==> s.filter(|c: char| name_char(c, dots)) == s.filter(
            |c: char| plain_char(c) || c == '.' || c == '_',
        ),
    decreases s.len(),
{
    reveal(Seq::filter);
    if s.len() > 0 {
        lemma_same_chars(s.drop_last(), dots);
    }
}

/// A printed name holds nothing but GitHub's characters and the separator.
pub proof fn law_shown_names_hold_only_githubs_characters(s: Seq<char>)
    ensures
        forall|i: int|
            0 <= i < shown_name(s).len() ==> name_char(#[trigger] shown_name(s)[i], true)
                || shown_name(s)[i] == '/',
{
    reveal_strlit("/");
    lemma_kept_chars(before(s, '/'), false);
    lemma_kept_chars(after(s, '/'), true);
    lemma_kept_chars(s, true);
    let owner = if s.contains('/') {
        kept(before(s, '/'), false)
    } else {
        Seq::empty()
    };
    assert forall|i: int| 0 <= i < shown_name(s).len() implies name_char(
        #[trigger] shown_name(s)[i],
        true,
    ) || shown_name(s)[i] == '/' by {
        if i < owner.len() {
            assert(shown_name(s)[i] == owner[i]);
            assert(name_char(owner[i], false));
        }
    }
}

/// A name in GitHub's characters is printed as it was asked for, whatever its length, because
/// reading it back is how a maintainer finds the typo.
pub proof fn law_wrong_but_plain_names_are_printed_unchanged(s: Seq<char>)
    requires
        s.contains('/'),
        before(s, '/').len() > 0,
        after(s, '/').len() > 0,
        all_name_chars(before(s, '/'), false),
        all_name_chars(after(s, '/'), true),
    ensures
        shown_name(s) == s,
{
    reveal_strlit("/");
    lemma_run(s, '/');
    lemma_kept_same(before(s, '/'), false);
    lemma_kept_same(after(s, '/'), true);
    assert(shown_name(s) =~= s);
}

/// Printing a printed name changes nothing.
pub proof fn law_printing_twice_changes_nothing(s: Seq<char>)
    ensures
        shown_name(shown_name(s)) == shown_name(s),
{
    reveal_strlit("/");
    lemma_kept_chars(before(s, '/'), false);
    lemma_kept_chars(after(s, '/'), true);
    lemma_kept_chars(s, true);
    let owner = if s.contains('/') {
        kept(before(s, '/'), false)
    } else {
        Seq::empty()
    };
    let name = kept(
        if s.contains('/') {
            after(s, '/')
        } else {
            s
        },
        true,
    );
    let t = shown_name(s);
    if owner.len() > 0 && name.len() > 0 {
        lemma_parts_of(owner, name);
        law_wrong_but_plain_names_are_printed_unchanged(t);
    } else {
        assert forall|i: int| 0 <= i < t.len() implies name_char(#[trigger] t[i], true) by {
            if i < owner.len() {
                assert(t[i] == owner[i]);
                assert(name_char(owner[i], false));
            } else {
                assert(t[i] == name[i - owner.len()]);
            }
        }
        lemma_kept_same(t, true);
        assert(!t.contains('/'));
        assert(shown_name(t) =~= t);
    }
}

/// A name that is put together from its parts comes apart into them.
proof fn lemma_parts_of(owner: Seq<char>, name: Seq<char>)
    requires
        all_name_chars(owner, false),
    ensures
        ({
            let s = owner + "/"@ + name;
            &&& s.contains('/')
            &&& before(s, '/') == owner
            &&& after(s, '/') == name
        }),
{
    reveal_strlit("/");
    let s = owner + "/"@ + name;
    lemma_run(s, '/');
    assert(s[owner.len() as int] == '/');
    assert forall|i: int| 0 <= i < owner.len() implies s[i] != '/' by {
        assert(s[i] == owner[i]);
        assert(name_char(owner[i], false));
    }
    assert(run(s, '/') == owner.len());
    assert(before(s, '/') =~= owner);
    assert(after(s, '/') =~= name);
}

// ---------------------------------------------------------------- reading a name

/// The first entry of a list that is not blank.
pub open spec fn first_named(pieces: Seq<Seq<char>>) -> Seq<char>
    decreases pieces.len(),
{
    if pieces.len() == 0 {
        Seq::empty()
    } else if trimmed(pieces[0]).len() > 0 {
        trimmed(pieces[0])
    } else {
        first_named(pieces.skip(1))
    }
}

/// The first entry that is not blank is the one that counts; a list of blanks names nobody.
pub proof fn law_the_first_entry_that_is_not_blank_counts(pieces: Seq<Seq<char>>, k: int)
    requires
        0 <= k <= pieces.len(),
        forall|j: int| 0 <= j < k ==> trimmed(#[trigger] pieces[j]).len() == 0,
    ensures
        k < pieces.len() && trimmed(pieces[k]).len() > 0 ==> first_named(pieces) == trimmed(
            pieces[k],
        ),
        k == pieces.len() ==> first_named(pieces).len() == 0,
    decreases k,
{
    if k > 0 {
        let rest = pieces.skip(1);
        assert(trimmed(pieces[0]).len() == 0);
        assert forall|j: int| 0 <= j < k - 1 implies trimmed(#[trigger] rest[j]).len() == 0 by {
            assert(rest[j] == pieces[j + 1]);
        }
        law_the_first_entry_that_is_not_blank_counts(rest, k - 1);
    }
}

/// The repo that a comma-separated list asks for. An empty entry is not the repo anybody
/// meant, so a leading comma falls through to the next one.
pub fn first_repo(repos: Option<&str>) -> (r: String)
    ensures
        r@ == (match repos {
            Some(list) => first_named(split(list@, ',')),
            None => Seq::empty(),
        }),
{
    let list = match repos {
        Some(list) => list,
        None => return String::new(),
    };
    let pieces = split_on(list, ',');
    let ghost all = split(list@, ',');
    let mut i: usize = 0;
    assert(all.skip(0) =~= all);
    while i < pieces.len()
        invariant
            i <= pieces.len(),
            texts(pieces@) == all,
            all == split(list@, ','),
            repos == Some(list),
            first_named(all) == first_named(all.skip(i as int)),
        decreases pieces.len() - i,
    {
        let piece = trim_space(pieces[i]);
        assert(all[i as int] == pieces@[i as int]@);
        assert(all.skip(i as int)[0] == all[i as int]);
        if !piece.is_empty() {
            return piece.to_owned();
        }
        assert(all.skip(i as int).skip(1) =~= all.skip(i + 1));
        i += 1;
    }
    String::new()
}

/// What is left of a pasted URL once its scheme and host are taken off.
pub open spec fn url_path(raw: Seq<char>) -> Seq<char> {
    let s = trimmed(raw);
    let s = if starts_with(s, "https://"@) {
        drop_prefix(s, "https://"@)
    } else {
        drop_prefix(s, "http://"@)
    };
    drop_prefix(drop_prefix(s, "www."@), "github.com"@)
}

/// `owner/name` out of whatever was pasted: the bare name, the repo's URL, the URL of some
/// page inside it, with or without the `.git` suffix.
pub open spec fn pasted_name(raw: Seq<char>) -> Option<Seq<char>> {
    let parts = split(trim(url_path(raw), CharClass::Only('/')), '/');
    if parts.len() >= 2 && owner_allowed(parts[0]) && name_allowed(
        drop_suffix(parts[1], ".git"@),
    ) {
        Some(parts[0] + "/"@ + drop_suffix(parts[1], ".git"@))
    } else {
        None
    }
}

fn without_prefix<'a>(s: &'a str, prefix: &str) -> (r: &'a str)
    ensures
        r@ == drop_prefix(s@, prefix@),
{
    match strip_prefix_of(s, prefix) {
        Some(t) => t,
        None => s,
    }
}

pub fn repo_name(raw: &str) -> (r: Option<String>)
    ensures
        opt_text(r) == pasted_name(raw@),
{
    let s = trim_space(raw);
    let s = match strip_prefix_of(s, "https://") {
        Some(t) => t,
        None => without_prefix(s, "http://"),
    };
    let s = without_prefix(without_prefix(s, "www."), "github.com");
    let parts = split_on(trim_of(s, &CharClass::Only('/')), '/');
    let ghost all = texts(parts@);
    if parts.len() < 2 {
        return None;
    }
    assert(all[0] == parts@[0]@ && all[1] == parts@[1]@);
    let owner = parts[0];
    let name = match strip_suffix_of(parts[1], ".git") {
        Some(t) => t,
        None => parts[1],
    };
    if valid_owner(owner) && valid_name(name) {
        let mut out = owner.to_owned();
        out.append("/");
        out.append(name);
        Some(out)
    } else {
        None
    }
}

/// A name read out of a paste is one that may be looked up, and it is printed unchanged.
pub proof fn law_pasted_names_are_allowed(raw: Seq<char>)
    ensures
        pasted_name(raw) matches Some(name) ==> full_name_allowed(name) && shown_name(name) == name,
{
    if let Some(name) = pasted_name(raw) {
        let parts = split(trim(url_path(raw), CharClass::Only('/')), '/');
        lemma_parts_of(parts[0], drop_suffix(parts[1], ".git"@));
        law_wrong_but_plain_names_are_printed_unchanged(name);
    }
}

/// Whether a text is one of the ways in which a repo is pasted: its name, with or without
/// GitHub's address before it, `.git` behind it, and behind that the path of a page inside it.
pub open spec fn is_paste_of(
    s: Seq<char>,
    name: Seq<char>,
    scheme: Seq<char>,
    www: Seq<char>,
    host: Seq<char>,
    suffix: Seq<char>,
    page: Seq<char>,
) -> bool {
    &&& s == scheme + www + host + name + suffix + page
    &&& scheme == Seq::<char>::empty() || scheme == "https://"@ || scheme == "http://"@
    &&& www == Seq::<char>::empty() || www == "www."@
    &&& host == Seq::<char>::empty() || host == "github.com/"@
    &&& suffix == Seq::<char>::empty() || suffix == ".git"@
    &&& page == Seq::<char>::empty() || page[0] == '/'
}

/// A prefix with a character that no owner has, before any slash, begins no name.
proof fn lemma_no_prefix_of_a_name(s: Seq<char>, n: int, prefix: Seq<char>, k: int)
    requires
        1 <= n < s.len(),
        forall|i: int| 0 <= i < n ==> name_char(#[trigger] s[i], false),
        s[n] == '/',
        0 <= k < prefix.len(),
        !name_char(prefix[k], false),
        forall|i: int| 0 <= i <= k ==> prefix[i] != '/',
    ensures
        drop_prefix(s, prefix) == s,
{
    if starts_with(s, prefix) {
        let t = s.take(prefix.len() as int);
        assert(t[k] == s[k]);
        if k < n {
            assert(name_char(s[k], false));
        } else {
            assert(t[n] == s[n]);
        }
    }
}

/// A text that begins with a prefix loses it.
proof fn lemma_drops(prefix: Seq<char>, rest: Seq<char>)
    ensures
        starts_with(prefix + rest, prefix),
        drop_prefix(prefix + rest, prefix) == rest,
{
    assert((prefix + rest).take(prefix.len() as int) =~= prefix);
    assert((prefix + rest).skip(prefix.len() as int) =~= rest);
}

/// What is left of a paste once the address is taken off.
#[verifier::spinoff_prover]
#[verifier::rlimit(60)]
proof fn lemma_address_comes_off(
    raw: Seq<char>,
    n: int,
    rest: Seq<char>,
    scheme: Seq<char>,
    www: Seq<char>,
    host: Seq<char>,
)
    requires
        trimmed(raw) == scheme + www + host + rest,
        scheme == Seq::<char>::empty() || scheme == "https://"@ || scheme == "http://"@,
        www == Seq::<char>::empty() || www == "www."@,
        host == Seq::<char>::empty() || host == "github.com/"@,
        1 <= n < rest.len(),
        forall|i: int| 0 <= i < n ==> name_char(#[trigger] rest[i], false),
        rest[n] == '/',
    ensures
        url_path(raw) == (if host.len() == 0 {
            rest
        } else {
            seq!['/'] + rest
        }),
{
    reveal_strlit("https://");
    reveal_strlit("http://");
    reveal_strlit("www.");
    reveal_strlit("github.com");
    reveal_strlit("github.com/");
    let s0 = trimmed(raw);
    let s1 = www + host + rest;
    let s2 = host + rest;
    let s3 = if host.len() == 0 {
        rest
    } else {
        seq!['/'] + rest
    };
    assert(s0 =~= scheme + s1);
    assert(s1 =~= www + s2);
    lemma_no_prefix_of_a_name(rest, n, "https://"@, 5);
    lemma_no_prefix_of_a_name(rest, n, "http://"@, 4);
    lemma_no_prefix_of_a_name(rest, n, "www."@, 3);
    lemma_no_prefix_of_a_name(rest, n, "github.com"@, 6);
    // The scheme.
    let after_scheme = if starts_with(s0, "https://"@) {
        drop_prefix(s0, "https://"@)
    } else {
        drop_prefix(s0, "http://"@)
    };
    assert(after_scheme == s1) by {
        if scheme == "https://"@ {
            lemma_drops("https://"@, s1);
        } else if scheme == "http://"@ {
            lemma_drops("http://"@, s1);
            assert(s0.take(8)[4] == ':');
            assert(!starts_with(s0, "https://"@));
        } else {
            assert(s0 =~= s1);
            if www.len() > 0 {
                assert(s0[0] == 'w');
                assert(s0.len() >= 8 ==> s0.take(8)[0] == 'w');
                assert(s0.len() >= 7 ==> s0.take(7)[0] == 'w');
            } else if host.len() > 0 {
                assert(s0[0] == 'g');
                assert(s0.len() >= 8 ==> s0.take(8)[0] == 'g');
                assert(s0.len() >= 7 ==> s0.take(7)[0] == 'g');
            } else {
                assert(s0 =~= rest);
                assert(!starts_with(rest, "https://"@)) by {
                    if starts_with(rest, "https://"@) {
                        assert(rest.skip(8).len() < rest.len());
                    }
                }
            }
        }
    }
    // The subdomain.
    assert(drop_prefix(s1, "www."@) == s2) by {
        if www.len() > 0 {
            lemma_drops("www."@, s2);
        } else {
            assert(s1 =~= s2);
            if host.len() > 0 {
                assert(s1[0] == 'g');
                assert(s1.take(4)[0] == 'g');
            } else {
                assert(s1 =~= rest);
            }
        }
    }
    // The host.
    assert(drop_prefix(s2, "github.com"@) == s3) by {
        if host.len() > 0 {
            assert(host =~= "github.com"@ + seq!['/']);
            assert(s2 =~= "github.com"@ + s3);
            lemma_drops("github.com"@, s3);
        } else {
            assert(s2 =~= rest);
        }
    }
}

/// What stands between the slashes of a name with something behind it.
proof fn lemma_pasted_parts(owner: Seq<char>, own: Seq<char>, page: Seq<char>)
    requires
        all_name_chars(owner, false),
        all_name_chars(own, true),
        page.len() > 0 ==> page[0] == '/',
    ensures
        ({
            let parts = split(owner + "/"@ + own + page, '/');
            parts.len() >= 2 && parts[0] == owner && parts[1] == own
        }),
{
    reveal_strlit("/");
    assert forall|i: int| 0 <= i < owner.len() implies owner[i] != '/' by {
        assert(name_char(owner[i], false));
    }
    assert forall|i: int| 0 <= i < own.len() implies own[i] != '/' by {
        assert(name_char(own[i], true));
    }
    let s = owner + "/"@ + own + page;
    assert(s =~= owner + seq!['/'] + (own + page));
    lemma_split_first(owner, '/', own + page);
    if page.len() == 0 {
        assert(own + page =~= own);
        lemma_split_whole(own, '/');
    } else {
        assert(own + page =~= own + seq!['/'] + page.skip(1));
        lemma_split_first(own, '/', page.skip(1));
    }
}

/// A name that may be looked up is read out of every form in which it is pasted. A name that
/// itself ends in `.git` needs the suffix behind it: without one, its own ending is taken off.
#[verifier::spinoff_prover]
#[verifier::rlimit(60)]
pub proof fn law_names_are_read_out_of_their_urls(
    raw: Seq<char>,
    name: Seq<char>,
    scheme: Seq<char>,
    www: Seq<char>,
    host: Seq<char>,
    suffix: Seq<char>,
    page: Seq<char>,
)
    requires
        full_name_allowed(name),
        is_paste_of(trimmed(raw), name, scheme, www, host, suffix, page),
        suffix.len() > 0 || !ends_with(name, ".git"@),
    ensures
        pasted_name(raw) == Some(name),
{
    reveal_strlit("/");
    reveal_strlit(".git");
    let owner = before(name, '/');
    let own = after(name, '/');
    let full = own + suffix;
    lemma_run(name, '/');
    assert(name =~= owner + "/"@ + own);
    let rest = name + suffix + page;
    let n = owner.len() as int;
    assert(trimmed(raw) =~= scheme + www + host + rest);
    assert(rest[n] == '/');
    assert forall|i: int| 0 <= i < n implies name_char(#[trigger] rest[i], false) by {
        assert(rest[i] == owner[i]);
    }
    lemma_address_comes_off(raw, n, rest, scheme, www, host);
    let slash = CharClass::Only('/');
    assert(name_char(rest[0], false));
    assert(trim_left(rest, slash) == rest);
    assert((seq!['/'] + rest).skip(1) =~= rest);
    assert(trim_left(url_path(raw), slash) == rest);
    let whole = name + suffix;
    assert(name_char(full.last(), true)) by {
        if suffix.len() == 0 {
            assert(full =~= own);
        } else {
            assert(full.last() == 't');
        }
    }
    assert(whole.last() == full.last());
    lemma_trim_right_stops(whole, page, slash);
    let cut = trim_right(page, slash);
    assert(whole + cut =~= owner + "/"@ + full + cut);
    assert forall|i: int| 0 <= i < full.len() implies name_char(#[trigger] full[i], true) by {
        if i < own.len() {
            assert(full[i] == own[i]);
        }
    }
    lemma_pasted_parts(owner, full, cut);
    assert(drop_suffix(full, ".git"@) == own) by {
        if suffix.len() > 0 {
            assert(full.skip(full.len() - 4) =~= ".git"@);
            assert(full.take(full.len() - 4) =~= own);
        } else {
            assert(full =~= own);
            if ends_with(own, ".git"@) {
                assert(name.skip(name.len() - 4) =~= own.skip(own.len() - 4));
            }
        }
    }
}

/// A name that may be looked up is read as itself.
pub proof fn law_names_are_read_as_themselves(name: Seq<char>)
    requires
        full_name_allowed(name),
        !ends_with(name, ".git"@),
    ensures
        pasted_name(name) == Some(name),
{
    let none = Seq::<char>::empty();
    let owner = before(name, '/');
    let own = after(name, '/');
    lemma_run(name, '/');
    assert(name[0] == owner[0] && name_char(owner[0], false));
    assert(name.last() == own.last() && name_char(own[own.len() - 1], true));
    assert(trimmed(name) == name);
    assert(none + none + none + name + none + none =~= name);
    law_names_are_read_out_of_their_urls(name, name, none, none, none, none, none);
}

} // verus!
