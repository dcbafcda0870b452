//! Template resolution: the content placeholder, the date placeholder and the
//! placeholders that name a configuration key.

use crate::calendar::{
    date_time, date_time_text, day_of_month, is_date_of_day, lemma_date_of_day,
    lemma_date_time_text_has_form, month_of, year_of,
};
use crate::clock::{display_time, is_date_time, is_time_text, now_seconds};
use crate::config::{ConfigValue, Configuration};
use crate::text::{
    contains, decimal, find, find_from, from_chars, lemma_find_from, lemma_replace_absent,
    matches_at, replace, replace_all, slice_range, to_chars,
};
use vstd::prelude::*;

verus! {

/// The placeholder for the post's body.
pub open spec fn content_token() -> Seq<char> {
    "<GoupiContent/>"@
}

/// The placeholder for the date.
pub open spec fn date_token() -> Seq<char> {
    "<GoupiDate/>"@
}

/// What every placeholder begins with.
pub open spec fn tag_open() -> Seq<char> {
    "<Goupi"@
}

/// What every placeholder ends with.
pub open spec fn tag_close() -> Seq<char> {
    "/>"@
}

/// The placeholders of `s` from index `start` on, in the order in which they
/// occur. A placeholder runs from an opening to the first closing after it,
/// and the scan goes on behind that closing. An opening with no closing
/// behind it is no placeholder, and then no later opening is one either.
pub open spec fn scan_tags(s: Seq<char>, start: int) -> Seq<Seq<char>>
    decreases s.len() - start,
{
    let open = find_from(s, tag_open(), start);
    if open is Some && start <= open->0 {
        let close = find_from(s, tag_close(), open->0);
        if close is Some && open->0 <= close->0 && close->0 + 2 <= s.len() {
            seq![s.subrange(open->0, close->0 + 2)] + scan_tags(s, close->0 + 2)
        } else {
            Seq::empty()
        }
    } else {
        Seq::empty()
    }
}

/// The key that the placeholder `tag` names: what stands between its opening
/// and its closing.
pub open spec fn tag_name(tag: Seq<char>) -> Seq<char> {
    tag.subrange(6, tag.len() - 2)
}

/// The text for the key `name`: the post's value where the post has the key,
/// else the site's.
pub open spec fn lookup(
    post: Map<Seq<char>, ConfigValue>,
    site: Map<Seq<char>, ConfigValue>,
    name: Seq<char>,
) -> Option<Seq<char>> {
    if post.contains_key(name) {
        Some(post[name].text())
    } else if site.contains_key(name) {
        Some(site[name].text())
    } else {
        None
    }
}

/// Replaces, for each placeholder of `tags` in turn, every occurrence of it
/// in `s` by the text for its key. The first key that neither configuration
/// has ends the work with that key as the error.
pub open spec fn substitute(
    s: Seq<char>,
    tags: Seq<Seq<char>>,
    post: Map<Seq<char>, ConfigValue>,
    site: Map<Seq<char>, ConfigValue>,
) -> Result<Seq<char>, Seq<char>>
    decreases tags.len(),
{
    if tags.len() == 0 {
        Ok(s)
    } else {
        match lookup(post, site, tag_name(tags[0])) {
            Some(value) => substitute(
                replace_all(s, tags[0], value),
                tags.drop_first(),
                post,
                site,
            ),
            None => Err(tag_name(tags[0])),
        }
    }
}

/// The template with the content and the date put in, before any key is
/// looked up.
pub open spec fn prepared(template: Seq<char>, content: Seq<char>, date: Seq<char>) -> Seq<char> {
    replace_all(replace_all(template, content_token(), content), date_token(), date)
}

/// The resolved template, or the first key that neither configuration has.
pub open spec fn resolved(
    template: Seq<char>,
    post: Map<Seq<char>, ConfigValue>,
    site: Map<Seq<char>, ConfigValue>,
    content: Seq<char>,
    date: Seq<char>,
) -> Result<Seq<char>, Seq<char>> {
    let text = prepared(template, content, date);
    substitute(text, scan_tags(text, 0), post, site)
}

/// `a` and `b` give the same text for every key that `post` lacks.
pub open spec fn agree_outside(
    post: Map<Seq<char>, ConfigValue>,
    a: Map<Seq<char>, ConfigValue>,
    b: Map<Seq<char>, ConfigValue>,
) -> bool {
    forall|k: Seq<char>|
        !post.contains_key(k) ==> (a.contains_key(k) <==> b.contains_key(k)) && (a.contains_key(k)
            ==> a[k].text() == b[k].text())
}

proof fn lemma_substitute_shadowed(
    s: Seq<char>,
    tags: Seq<Seq<char>>,
    post: Map<Seq<char>, ConfigValue>,
    a: Map<Seq<char>, ConfigValue>,
    b: Map<Seq<char>, ConfigValue>,
)
    requires
        agree_outside(post, a, b),
    ensures
        substitute(s, tags, post, a) == substitute(s, tags, post, b),
    decreases tags.len(),
{
    if tags.len() > 0 {
        let name = tag_name(tags[0]);
        assert(lookup(post, a, name) == lookup(post, b, name));
        if lookup(post, a, name) is Some {
            lemma_substitute_shadowed(
                replace_all(s, tags[0], lookup(post, a, name)->0),
                tags.drop_first(),
                post,
                a,
                b,
            );
        }
    }
}

/// Precedence: the post's configuration shadows the site's. Where the post
/// has a key, the text for it is the text of the post's value, and what the
/// site holds under that key changes nothing in the resolved template.
pub proof fn lemma_post_shadows_site(
    template: Seq<char>,
    post: Map<Seq<char>, ConfigValue>,
    site: Map<Seq<char>, ConfigValue>,
    other_site: Map<Seq<char>, ConfigValue>,
    content: Seq<char>,
    date: Seq<char>,
)
    requires
        agree_outside(post, site, other_site),
    ensures
        forall|k: Seq<char>| post.contains_key(k) ==> lookup(post, site, k) == Some(post[k].text()),
        resolved(template, post, site, content, date) == resolved(
            template,
            post,
            other_site,
            content,
            date,
        ),
{
    let text = prepared(template, content, date);
    lemma_substitute_shadowed(text, scan_tags(text, 0), post, site, other_site);
}

/// The placeholder `tags[i]` names a key that neither configuration has,
/// and every placeholder before it names one that some configuration has.
pub open spec fn key_is_first_missing(
    tags: Seq<Seq<char>>,
    post: Map<Seq<char>, ConfigValue>,
    site: Map<Seq<char>, ConfigValue>,
    i: int,
) -> bool {
    0 <= i < tags.len() && lookup(post, site, tag_name(tags[i])) is None && forall|j: int|
        0 <= j < i ==> lookup(post, site, tag_name(#[trigger] tags[j])) is Some
}

proof fn lemma_substitute_outcome(
    s: Seq<char>,
    tags: Seq<Seq<char>>,
    post: Map<Seq<char>, ConfigValue>,
    site: Map<Seq<char>, ConfigValue>,
)
    ensures
        match substitute(s, tags, post, site) {
            Ok(_) => forall|i: int|
                0 <= i < tags.len() ==> lookup(post, site, tag_name(#[trigger] tags[i])) is Some,
            Err(key) => exists|i: int|
                #[trigger] key_is_first_missing(tags, post, site, i) && key == tag_name(tags[i]),
        },
    decreases tags.len(),
{
    if tags.len() > 0 {
        match lookup(post, site, tag_name(tags[0])) {
            Some(value) => {
                let rest = tags.drop_first();
                lemma_substitute_outcome(replace_all(s, tags[0], value), rest, post, site);
                match substitute(s, tags, post, site) {
                    Ok(_) => {
                        assert forall|i: int| 0 <= i < tags.len() implies lookup(
                            post,
                            site,
                            tag_name(#[trigger] tags[i]),
                        ) is Some by {
                            if i > 0 {
                                assert(tags[i] == rest[i - 1]);
                            }
                        }
                    },
                    Err(key) => {
                        let i = choose|i: int|
                            #[trigger] key_is_first_missing(rest, post, site, i) && key
                                == tag_name(rest[i]);
                        assert(tags[i + 1] == rest[i]);
                        assert forall|j: int| 0 <= j < i + 1 implies lookup(
                            post,
                            site,
                            tag_name(#[trigger] tags[j]),
                        ) is Some by {
                            if j > 0 {
                                assert(tags[j] == rest[j - 1]);
                            }
                        }
                        assert(key_is_first_missing(tags, post, site, i + 1));
                    },
                }
            },
            None => {
                assert(key_is_first_missing(tags, post, site, 0));
            },
        }
    }
}

/// Resolution fails exactly when a placeholder names a key that neither
/// configuration has, and the error is the key of the first such
/// placeholder. It succeeds exactly when every placeholder's key is found.
pub proof fn lemma_unresolved_tag_fails(
    template: Seq<char>,
    post: Map<Seq<char>, ConfigValue>,
    site: Map<Seq<char>, ConfigValue>,
    content: Seq<char>,
    date: Seq<char>,
)
    ensures
        ({
            let tags = scan_tags(prepared(template, content, date), 0);
            match resolved(template, post, site, content, date) {
                Ok(_) => forall|i: int|
                    0 <= i < tags.len() ==> lookup(post, site, tag_name(#[trigger] tags[i]))
                        is Some,
                Err(key) => exists|i: int|
                    #[trigger] key_is_first_missing(tags, post, site, i) && key == tag_name(
                        tags[i],
                    ),
            }
        }),
{
    let text = prepared(template, content, date);
    lemma_substitute_outcome(text, scan_tags(text, 0), post, site);
}

/// Why a template could not be resolved.
#[derive(Debug)]
pub enum TemplateError {
    /// A placeholder names a key that neither configuration has.
    UnresolvedTag(String),
}

impl TemplateError {
    /// The key that could not be resolved.
    pub open spec fn key(&self) -> Seq<char> {
        match self {
            TemplateError::UnresolvedTag(name) => name@,
        }
    }

    /// A sentence that names the key.
    pub fn message(&self) -> (m: String)
        ensures
            m@ == "Tag '"@ + self.key() + "' not found in post.toml or site.toml"@,
    {
        match self {
            TemplateError::UnresolvedTag(name) => {
                let mut m = "Tag '".to_owned();
                m.append(name.as_str());
                m.append("' not found in post.toml or site.toml");
                m
            },
        }
    }
}

/// Whether `r` is the outcome that `expected` describes.
pub open spec fn is_outcome(
    r: Result<String, TemplateError>,
    expected: Result<Seq<char>, Seq<char>>,
) -> bool {
    match r {
        Ok(text) => expected == Ok::<Seq<char>, Seq<char>>(text@),
        Err(e) => expected == Err::<Seq<char>, Seq<char>>(e.key()),
    }
}

/// A closing that stands at or behind an opening stands behind the whole
/// opening.
proof fn lemma_close_behind_open(s: Seq<char>, a: int, e: int)
    requires
        matches_at(s, tag_open(), a),
        matches_at(s, tag_close(), e),
        a <= e,
    ensures
        a + 6 <= e,
        e + 2 <= s.len(),
        tag_open().len() == 6,
        tag_close().len() == 2,
{
    reveal_strlit("<Goupi");
    reveal_strlit("/>");
    let open = s.subrange(a, a + 6);
    let close = s.subrange(e, e + 2);
    assert(close[0] == '/');
    assert(s[e] == '/');
    if e < a + 6 {
        assert(open[e - a] == s[e]);
    }
}

/// Every placeholder that the scan gives has the form of one: it begins
/// with the opening, and its only closing is the one at its end, so that the
/// key holds no closing.
pub proof fn lemma_scanned_tags_are_placeholders(s: Seq<char>, start: int, i: int)
    requires
        0 <= start,
        0 <= i < scan_tags(s, start).len(),
    ensures
        ({
            let tag = scan_tags(s, start)[i];
            tag.len() >= 8 && matches_at(tag, tag_open(), 0) && find_from(tag, tag_close(), 0)
                == Some(tag.len() - 2)
        }),
    decreases s.len() - start,
{
    let a = find_from(s, tag_open(), start)->0;
    let e = find_from(s, tag_close(), a)->0;
    lemma_find_from(s, tag_open(), start);
    lemma_find_from(s, tag_close(), a);
    lemma_close_behind_open(s, a, e);
    let rest = scan_tags(s, e + 2);
    assert(scan_tags(s, start) == seq![s.subrange(a, e + 2)] + rest);
    if i == 0 {
        let tag = s.subrange(a, e + 2);
        assert(scan_tags(s, start)[0] == tag);
        assert(tag.subrange(0, 6) =~= s.subrange(a, a + 6));
        assert(tag.subrange(e - a, e - a + 2) =~= s.subrange(e, e + 2));
        assert forall|j: int| 0 <= j < e - a implies !matches_at(tag, tag_close(), j) by {
            if matches_at(tag, tag_close(), j) {
                assert(s.subrange(a + j, a + j + 2) =~= tag.subrange(j, j + 2));
                assert(matches_at(s, tag_close(), a + j));
            }
        }
        lemma_find_from(tag, tag_close(), 0);
        assert(matches_at(tag, tag_close(), e - a));
    } else {
        lemma_scanned_tags_are_placeholders(s, e + 2, i - 1);
        assert(scan_tags(s, start)[i] == rest[i - 1]);
    }
}

/// The placeholder for the key `Title`.
pub open spec fn title_tag() -> Seq<char> {
    "<GoupiTitle/>"@
}

/// `s` holds no opening of a placeholder.
pub open spec fn has_no_opening(s: Seq<char>) -> bool {
    forall|i: int| !matches_at(s, tag_open(), i)
}

/// In a text without an opening that is followed by the placeholder for
/// the title, the only opening is that of the placeholder.
proof fn lemma_opening_of_joined(content: Seq<char>, j: int)
    requires
        has_no_opening(content),
        matches_at(content + title_tag(), tag_open(), j),
    ensures
        j == content.len(),
{
    reveal_strlit("<Goupi");
    reveal_strlit("<GoupiTitle/>");
    let s = content + title_tag();
    let n = content.len() as int;
    let found = s.subrange(j, j + 6);
    assert(found[0] == '<' && s[j] == '<');
    if j + 6 <= n {
        assert(content.subrange(j, j + 6) =~= found);
        assert(matches_at(content, tag_open(), j));
    } else if j < n {
        assert(found[n - j] == s[n] && s[n] == title_tag()[0]);
    } else {
        assert(s[j] == title_tag()[j - n]);
    }
}

/// Content, then title: the template that holds the placeholder for the
/// content and, straight behind it, the placeholder for the title resolves
/// to the content followed at once by the text of the post's title, with
/// nothing between and nothing after. This holds of every content without
/// an opening of a placeholder, whatever the site and the date are.
pub proof fn lemma_content_then_title(
    post: Map<Seq<char>, ConfigValue>,
    site: Map<Seq<char>, ConfigValue>,
    content: Seq<char>,
    date: Seq<char>,
)
    requires
        post.contains_key("Title"@),
        has_no_opening(content),
    ensures
        resolved("<GoupiContent/><GoupiTitle/>"@, post, site, content, date) == Ok::<
            Seq<char>,
            Seq<char>,
        >(content + post["Title"@].text()),
{
    reveal_strlit("<GoupiContent/><GoupiTitle/>");
    reveal_strlit("<GoupiContent/>");
    reveal_strlit("<GoupiTitle/>");
    reveal_strlit("<GoupiDate/>");
    reveal_strlit("<Goupi");
    reveal_strlit("/>");
    reveal_strlit("Title");
    let template = "<GoupiContent/><GoupiTitle/>"@;
    let title = post["Title"@].text();
    let n = content.len() as int;
    let joined = content + title_tag();

    // The content is put in.
    assert(template.subrange(0, 15) =~= content_token());
    assert(find_from(template, content_token(), 15) is None);
    lemma_replace_absent(template, content_token(), content, 15);
    assert(template.subrange(15, 28) =~= title_tag());
    assert(replace_all(template, content_token(), content) =~= joined);

    // There is no date to put in.
    assert forall|j: int| !matches_at(joined, date_token(), j) by {
        if matches_at(joined, date_token(), j) {
            assert(joined.subrange(j, j + 6) =~= joined.subrange(j, j + 12).subrange(0, 6));
            assert(date_token().subrange(0, 6) =~= tag_open());
            lemma_opening_of_joined(content, j);
            assert(joined.subrange(j, j + 12)[6] == joined[n + 6]);
            assert(joined[n + 6] == title_tag()[6]);
        }
    }
    lemma_find_from(joined, date_token(), 0);
    lemma_replace_absent(joined, date_token(), date, 0);
    assert(joined.subrange(0, joined.len() as int) =~= joined);
    assert(prepared(template, content, date) == joined);

    // The one placeholder is that of the title.
    assert(joined.subrange(n, n + 6) =~= tag_open());
    assert(matches_at(joined, tag_open(), n));
    lemma_find_from(joined, tag_open(), 0);
    let open = find_from(joined, tag_open(), 0);
    assert(open is Some);
    lemma_opening_of_joined(content, open->0);
    assert(joined.subrange(n + 11, n + 13) =~= tag_close());
    assert(matches_at(joined, tag_close(), n + 11));
    lemma_find_from(joined, tag_close(), n);
    let close = find_from(joined, tag_close(), n);
    assert(close is Some);
    let e = close->0;
    assert(n <= e <= n + 11);
    assert(joined.subrange(e, e + 2)[0] == joined[e]);
    assert(joined[e] == title_tag()[e - n]);
    assert(e == n + 11);
    assert(joined.subrange(n, n + 13) =~= title_tag());
    assert(find_from(joined, tag_open(), n + 13) is None);
    assert(scan_tags(joined, n + 13) =~= Seq::<Seq<char>>::empty());
    assert(scan_tags(joined, 0) =~= seq![title_tag()]);

    // Its key is looked up in the post, and its text put in.
    assert(tag_name(title_tag()) =~= "Title"@);
    assert forall|j: int| 0 <= j < n implies !matches_at(joined, title_tag(), j) by {
        if matches_at(joined, title_tag(), j) {
            assert(joined.subrange(j, j + 6) =~= joined.subrange(j, j + 13).subrange(0, 6));
            assert(title_tag().subrange(0, 6) =~= tag_open());
            lemma_opening_of_joined(content, j);
        }
    }
    crate::text::lemma_replace_last(joined, title_tag(), title, 0);
    assert(joined.subrange(0, n) =~= content);
    let tags = seq![title_tag()];
    assert(tags.drop_first() =~= Seq::<Seq<char>>::empty());
    reveal_with_fuel(substitute, 2);
    assert(substitute(joined, tags, post, site) == Ok::<Seq<char>, Seq<char>>(content + title));
}

/// The views of the elements of `v`.
pub open spec fn views(v: Seq<Vec<char>>) -> Seq<Seq<char>> {
    Seq::new(v.len(), |i: int| v[i]@)
}

/// The placeholders of `s`, in the order in which they occur.
pub fn collect_tags(s: &[char]) -> (tags: Vec<Vec<char>>)
    ensures
        views(tags@) == scan_tags(s@, 0),
        forall|i: int| 0 <= i < tags@.len() ==> (#[trigger] tags@[i])@.len() >= 8,
{
    let open = to_chars("<Goupi");
    let close = to_chars("/>");
    let mut tags: Vec<Vec<char>> = Vec::new();
    let mut start: usize = 0;
    let length = s.len();
    loop
        invariant
            length == s@.len(),
            open@ == tag_open(),
            close@ == tag_close(),
            start <= s@.len(),
            scan_tags(s@, 0) == views(tags@) + scan_tags(s@, start as int),
            forall|i: int| 0 <= i < tags@.len() ==> (#[trigger] tags@[i])@.len() >= 8,
        ensures
            views(tags@) == scan_tags(s@, 0),
            forall|i: int| 0 <= i < tags@.len() ==> (#[trigger] tags@[i])@.len() >= 8,
        decreases s@.len() - start,
    {
        let a = match find(s, open.as_slice(), start) {
            Some(a) => a,
            None => {
                break ;
            },
        };
        proof {
            lemma_find_from(s@, tag_open(), start as int);
        }
        let e = match find(s, close.as_slice(), a) {
            Some(e) => e,
            None => {
                break ;
            },
        };
        proof {
            lemma_find_from(s@, tag_close(), a as int);
            lemma_close_behind_open(s@, a as int, e as int);
        }
        let tag = slice_range(s, a, e + 2);
        let ghost before = tags@;
        tags.push(tag);
        proof {
            assert(views(tags@) =~= views(before) + seq![s@.subrange(a as int, e + 2)]);
        }
        start = e + 2;
    }
    tags
}

/// Resolves `template` with `date` as the text for the date placeholder.
///
/// Every content placeholder becomes `content` and every date placeholder
/// `date`. Then each placeholder of the text so far is looked up, in the
/// post's configuration first and the site's second, and all of its
/// occurrences are replaced by the value's text. A key that neither has
/// ends the work: the error names it and no text is returned.
pub fn resolve(
    template: &str,
    post: &Configuration,
    site: &Configuration,
    content: &str,
    date: &str,
) -> (r: Result<String, TemplateError>)
    ensures
        is_outcome(r, resolved(template@, post@, site@, content@, date@)),
{
    let body = to_chars(template);
    let content_chars = to_chars(content);
    let with_content = replace(body.as_slice(), to_chars("<GoupiContent/>").as_slice(), content_chars.as_slice());
    let date_chars = to_chars(date);
    let text = replace(with_content.as_slice(), to_chars("<GoupiDate/>").as_slice(), date_chars.as_slice());
    resolve_keys(text, post, site)
}

/// Looks up each placeholder of `text` and replaces it, as `resolve` does
/// once the content and the date are in.
fn resolve_keys(text: Vec<char>, post: &Configuration, site: &Configuration) -> (r: Result<
    String,
    TemplateError,
>)
    ensures
        is_outcome(r, substitute(text@, scan_tags(text@, 0), post@, site@)),
{
    let tags = collect_tags(text.as_slice());
    let ghost all = scan_tags(text@, 0);
    let mut current = text;
    let mut i: usize = 0;
    proof {
        assert(all.skip(0) =~= all);
    }
    while i < tags.len()
        invariant
            i <= tags@.len(),
            views(tags@) == all,
            all == scan_tags(text@, 0),
            forall|j: int| 0 <= j < tags@.len() ==> (#[trigger] tags@[j])@.len() >= 8,
            substitute(text@, all, post@, site@) == substitute(
                current@,
                all.skip(i as int),
                post@,
                site@,
            ),
        decreases tags@.len() - i,
    {
        let tag = &tags[i];
        proof {
            assert(all.skip(i as int)[0] == tag@);
            assert(all.skip(i as int).drop_first() =~= all.skip(i + 1));
        }
        let name = from_chars(slice_range(tag.as_slice(), 6, tag.len() - 2).as_slice());
        let value = match post.get(name.as_str()) {
            Some(v) => v.to_text(),
            None => match site.get(name.as_str()) {
                Some(v) => v.to_text(),
                None => {
                    proof {
                        assert(lookup(post@, site@, tag_name(tag@)) is None);
                        assert(substitute(current@, all.skip(i as int), post@, site@) == Err::<
                            Seq<char>,
                            Seq<char>,
                        >(name@));
                    }
                    return Err(TemplateError::UnresolvedTag(name));
                },
            },
        };
        current = replace(current.as_slice(), tag.as_slice(), to_chars(value.as_str()).as_slice());
        i += 1;
    }
    Ok(from_chars(current.as_slice()))
}

/// Resolves `template`. The date placeholder stands for the current local
/// date and time, which is read once, and only where the placeholder occurs
/// after the content has been put in.
pub fn process_template(
    template: &str,
    post_config: &Configuration,
    site_config: &Configuration,
    content: &str,
) -> (r: Result<String, TemplateError>)
    ensures
        exists|date: Seq<char>, now: int|
            #[trigger] is_time_text(date, now) && is_outcome(
                r,
                resolved(template@, post_config@, site_config@, content@, date),
            ),
        !contains(replace_all(template@, content_token(), content@), date_token()) ==> is_outcome(
            r,
            resolved(template@, post_config@, site_config@, content@, Seq::empty()),
        ),
{
    let body = to_chars(template);
    let content_chars = to_chars(content);
    let with_content = replace(body.as_slice(), to_chars("<GoupiContent/>").as_slice(), content_chars.as_slice());
    let token = to_chars("<GoupiDate/>");
    if find(with_content.as_slice(), token.as_slice(), 0).is_some() {
        let now = now_seconds();
        let date = display_time(now);
        let text = replace(with_content.as_slice(), token.as_slice(), to_chars(date.as_str()).as_slice());
        let r = resolve_keys(text, post_config, site_config);
        proof {
            assert(is_time_text(date@, now as int));
            assert(is_outcome(r, resolved(template@, post_config@, site_config@, content@, date@)));
        }
        r
    } else {
        proof {
            lemma_replace_absent(with_content@, date_token(), Seq::empty(), 0);
            lemma_replace_absent(with_content@, date_token(), decimal(0), 0);
            assert(with_content@.subrange(0, with_content@.len() as int) =~= with_content@);
        }
        let r = resolve_keys(with_content, post_config, site_config);
        proof {
            assert(is_outcome(
                r,
                resolved(template@, post_config@, site_config@, content@, Seq::empty()),
            ));
            assert(is_time_text(decimal(0), 0));
            assert(is_outcome(
                r,
                resolved(template@, post_config@, site_config@, content@, decimal(0)),
            ));
        }
        r
    }
}

/// The date and the time of day of `timestamp`, a number of seconds since
/// the Unix epoch, in the form `YYYY-MM-DD HH:MM:SS` and without regard to
/// any time zone: `1970-01-01 00:00:00` for 0.
pub fn format_date(timestamp: u64) -> (r: String)
    ensures
        r@ == date_time_text(timestamp as int),
        is_date_time(r@),
        is_date_of_day(
            timestamp as int / 86400,
            year_of(timestamp as int / 86400),
            month_of(timestamp as int / 86400),
            day_of_month(timestamp as int / 86400),
        ),
{
    proof {
        lemma_date_time_text_has_form(timestamp as int);
        lemma_date_of_day(timestamp as int / 86400);
    }
    from_chars(date_time(timestamp).as_slice())
}

} // verus!
