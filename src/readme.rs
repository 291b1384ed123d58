//! README post-processing: relative image and link references rewritten to
//! absolute addresses, rewritten images collected as gallery entries.
use vstd::prelude::*;
use crate::catalog::GalleryItem;
use crate::text::{
    chars_of, replace_all, replace_all_exec, starts_with, str_starts_with, string_of,
};

verus! {

/// The repository a README belongs to.
pub struct PostProcessContext<'a> {
    pub owner: &'a str,
    pub repo: &'a str,
    pub branch: &'a str,
}

/// Each HTML image tag with a `src` attribute, left to right: the whole tag
/// and its source.
pub uninterp spec fn html_image_matches(content: Seq<char>) -> Seq<(Seq<char>, Seq<char>)>;

/// The `alt` attribute value of an image tag.
pub uninterp spec fn image_alt(tag: Seq<char>) -> Option<Seq<char>>;

/// Each Markdown image, left to right: the whole image, its text, its source.
pub uninterp spec fn md_image_matches(content: Seq<char>) -> Seq<(Seq<char>, Seq<char>, Seq<char>)>;

/// Each Markdown link, left to right: the whole link, the character offset
/// where it starts, its text and its target.
pub uninterp spec fn md_link_matches(content: Seq<char>) -> Seq<(Seq<char>, int, Seq<char>, Seq<char>)>;

/// Each HTML anchor tag with an `href` attribute, left to right: the whole
/// tag and its target.
pub uninterp spec fn html_link_matches(content: Seq<char>) -> Seq<(Seq<char>, Seq<char>)>;

pub open spec fn pairs_view(v: Seq<(String, String)>) -> Seq<(Seq<char>, Seq<char>)> {
    v.map_values(|p: (String, String)| (p.0@, p.1@))
}

pub open spec fn triples_view(v: Seq<(String, String, String)>) -> Seq<(Seq<char>, Seq<char>, Seq<char>)> {
    v.map_values(|p: (String, String, String)| (p.0@, p.1@, p.2@))
}

pub open spec fn links_view(v: Seq<(String, usize, String, String)>) -> Seq<(Seq<char>, int, Seq<char>, Seq<char>)> {
    v.map_values(|p: (String, usize, String, String)| (p.0@, p.1 as int, p.2@, p.3@))
}

/// Relies on `regex::Regex::captures_iter` with the pattern
/// `<img\s+[^>]*src\s*=\s*["']([^"']+)["'][^>]*>`: the matches, whole tag and
/// first group, left to right.
#[verifier::external_body]
fn html_image_tags(content: &str) -> (r: Vec<(String, String)>)
    ensures
        pairs_view(r@) == html_image_matches(content@),
{
    let re = regex::Regex::new(r#"<img\s+[^>]*src\s*=\s*["']([^"']+)["'][^>]*>"#).unwrap();
    re.captures_iter(content)
        .map(|c| (c[0].to_string(), c[1].to_string()))
        .collect()
}

/// Relies on `regex::Regex::captures` with the pattern
/// `alt\s*=\s*["']([^"']*)["']`: the first group of the first match.
#[verifier::external_body]
fn alt_attribute(tag: &str) -> (r: Option<String>)
    ensures
        match r {
            Some(a) => image_alt(tag@) == Some(a@),
            None => image_alt(tag@) is None,
        },
{
    let re = regex::Regex::new(r#"alt\s*=\s*["']([^"']*)["']"#).unwrap();
    re.captures(tag).and_then(|c| c.get(1)).map(|m| m.as_str().to_string())
}

/// Relies on `regex::Regex::captures_iter` with the pattern
/// `!\[([^\]]*)\]\(([^)]+)\)`: the matches, whole image and both groups, left
/// to right.
#[verifier::external_body]
fn md_images(content: &str) -> (r: Vec<(String, String, String)>)
    ensures
        triples_view(r@) == md_image_matches(content@),
{
    let re = regex::Regex::new(r"!\[([^\]]*)\]\(([^)]+)\)").unwrap();
    re.captures_iter(content)
        .map(|c| (c[0].to_string(), c[1].to_string(), c[2].to_string()))
        .collect()
}

/// Relies on `regex::Regex::captures_iter` with the pattern
/// `\[([^\]]+)\]\(([^)]+)\)`: the matches, whole link with the character
/// offset where it starts and both groups, left to right.
#[verifier::external_body]
fn md_links(content: &str) -> (r: Vec<(String, usize, String, String)>)
    ensures
        links_view(r@) == md_link_matches(content@),
        forall|i: int| 0 <= i < r@.len() ==> #[trigger] r@[i].1 <= content@.len(),
{
    let re = regex::Regex::new(r"\[([^\]]+)\]\(([^)]+)\)").unwrap();
    re.captures_iter(content)
        .map(|c| {
            let start = content[..c.get(0).unwrap().start()].chars().count();
            (c[0].to_string(), start, c[1].to_string(), c[2].to_string())
        })
        .collect()
}

/// Relies on `regex::Regex::captures_iter` with the pattern
/// `<a\s+[^>]*href\s*=\s*["']([^"']+)["'][^>]*>`: the matches, whole tag and
/// first group, left to right.
#[verifier::external_body]
fn html_anchor_tags(content: &str) -> (r: Vec<(String, String)>)
    ensures
        pairs_view(r@) == html_link_matches(content@),
{
    let re = regex::Regex::new(r#"<a\s+[^>]*href\s*=\s*["']([^"']+)["'][^>]*>"#).unwrap();
    re.captures_iter(content)
        .map(|c| (c[0].to_string(), c[1].to_string()))
        .collect()
}

/// A reference inside the repository: not an absolute web address nor
/// inline data.
pub open spec fn is_relative_image(src: Seq<char>) -> bool {
    !starts_with(src, "http://"@) && !starts_with(src, "https://"@) && !starts_with(src, "data:"@)
}

/// A link inside the repository: also not an anchor nor a mail address.
pub open spec fn is_relative_link(href: Seq<char>) -> bool {
    is_relative_image(href) && !starts_with(href, "#"@) && !starts_with(href, "mailto:"@)
}

pub fn is_relative_path(src: &str) -> (r: bool)
    ensures
        r == is_relative_image(src@),
{
    !str_starts_with(src, "http://") && !str_starts_with(src, "https://") && !str_starts_with(src, "data:")
}

pub fn is_relative_link_path(href: &str) -> (r: bool)
    ensures
        r == is_relative_link(href@),
{
    is_relative_path(href) && !str_starts_with(href, "#") && !str_starts_with(href, "mailto:")
}

/// `s` with every leading `./` removed.
pub open spec fn strip_dot_slash(s: Seq<char>) -> Seq<char>
    decreases s.len(),
{
    if s.len() >= 2 && s[0] == '.' && s[1] == '/' {
        strip_dot_slash(s.subrange(2, s.len() as int))
    } else {
        s
    }
}

fn strip_dot_slash_exec(s: &str) -> (r: String)
    ensures
        r@ == strip_dot_slash(s@),
{
    let c = chars_of(s);
    let mut i: usize = 0;
    assert(c@.subrange(0, c@.len() as int) =~= c@);
    while i < c.len() && c.len() - i >= 2 && c[i] == '.' && c[i + 1] == '/'
        invariant
            i <= c@.len(),
            c@ == s@,
            strip_dot_slash(c@.subrange(i as int, c@.len() as int)) == strip_dot_slash(s@),
        decreases c@.len() - i,
    {
        assert(c@.subrange(i as int, c@.len() as int).subrange(2, c@.len() - i) =~= c@.subrange(i + 2, c@.len() as int));
        i = i + 2;
    }
    let rest = crate::text::slice_from(c.as_slice(), i);
    string_of(rest.as_slice())
}

pub open spec fn raw_address(owner: Seq<char>, repo: Seq<char>, branch: Seq<char>, src: Seq<char>) -> Seq<char> {
    crate::builder::raw_url(owner, repo, branch, strip_dot_slash(src))
}

pub open spec fn blob_address(owner: Seq<char>, repo: Seq<char>, branch: Seq<char>, href: Seq<char>) -> Seq<char> {
    "https://github.com/"@ + owner + "/"@ + repo + "/blob/"@ + branch + "/"@ + strip_dot_slash(href)
}

/// The raw-content address of a README-relative file.
pub fn to_raw_url(src: &str, ctx: &PostProcessContext) -> (r: String)
    ensures
        r@ == raw_address(ctx.owner@, ctx.repo@, ctx.branch@, src@),
{
    let path = strip_dot_slash_exec(src);
    crate::builder::to_raw_url(ctx.owner, ctx.repo, ctx.branch, path.as_str())
}

/// The blob page address of a README-relative file.
pub fn to_blob_url(href: &str, ctx: &PostProcessContext) -> (r: String)
    ensures
        r@ == blob_address(ctx.owner@, ctx.repo@, ctx.branch@, href@),
{
    let path = strip_dot_slash_exec(href);
    let mut r = String::from_str("https://github.com/");
    r.append(ctx.owner);
    r.append("/");
    r.append(ctx.repo);
    r.append("/blob/");
    r.append(ctx.branch);
    r.append("/");
    r.append(path.as_str());
    r
}

fn replace_text(s: &str, pat: &str, rep: &str) -> (r: String)
    ensures
        r@ == replace_all(s@, pat@, rep@),
{
    let a = chars_of(s);
    let b = chars_of(pat);
    let c = chars_of(rep);
    let r = replace_all_exec(a.as_slice(), b.as_slice(), c.as_slice());
    string_of(r.as_slice())
}

pub open spec fn gallery_view(g: Seq<GalleryItem>) -> Seq<(Seq<char>, Seq<char>, Seq<char>, Seq<char>)> {
    g.map_values(|i: GalleryItem| (i.url@, i.title@, i.description@, i.created@))
}

/// The text after the HTML image tags are rewritten, and the gallery entries
/// they add.
pub open spec fn html_images_done(
    content: Seq<char>,
    ms: Seq<(Seq<char>, Seq<char>)>,
    owner: Seq<char>,
    repo: Seq<char>,
    branch: Seq<char>,
) -> (Seq<char>, Seq<(Seq<char>, Seq<char>, Seq<char>, Seq<char>)>)
    decreases ms.len(),
{
    if ms.len() == 0 {
        (content, Seq::empty())
    } else {
        let (text, items) = html_images_done(content, ms.drop_last(), owner, repo, branch);
        let (tag, src) = ms.last();
        if is_relative_image(src) {
            let raw = raw_address(owner, repo, branch, src);
            let title = match image_alt(tag) {
                Some(a) => a,
                None => Seq::empty(),
            };
            (replace_all(text, tag, replace_all(tag, src, raw)), items.push((raw, title, Seq::empty(), Seq::empty())))
        } else {
            (text, items)
        }
    }
}

fn gallery_entry(url: String, title: String) -> (g: GalleryItem)
    ensures
        g.url@ == url@,
        g.title@ == title@,
        g.description@ == Seq::<char>::empty(),
        g.created@ == Seq::<char>::empty(),
{
    let g = GalleryItem { url, title, description: String::new(), created: String::new() };
    assert(g.description@ =~= Seq::<char>::empty());
    g
}

pub fn process_html_images(content: &str, ctx: &PostProcessContext, gallery: &mut Vec<GalleryItem>) -> (r: String)
    ensures
        r@ == html_images_done(content@, html_image_matches(content@), ctx.owner@, ctx.repo@, ctx.branch@).0,
        gallery_view(final(gallery)@) == gallery_view(old(gallery)@) + html_images_done(
            content@,
            html_image_matches(content@),
            ctx.owner@,
            ctx.repo@,
            ctx.branch@,
        ).1,
{
    let ms = html_image_tags(content);
    let ghost mv = pairs_view(ms@);
    let mut result = String::from_str(content);
    let mut i: usize = 0;
    assert(mv.subrange(0, 0) =~= Seq::<(Seq<char>, Seq<char>)>::empty());
    assert(gallery_view(old(gallery)@) + Seq::empty() =~= gallery_view(old(gallery)@));
    while i < ms.len()
        invariant
            i <= ms@.len(),
            mv == pairs_view(ms@),
            mv == html_image_matches(content@),
            result@ == html_images_done(content@, mv.subrange(0, i as int), ctx.owner@, ctx.repo@, ctx.branch@).0,
            gallery_view(gallery@) == gallery_view(old(gallery)@) + html_images_done(
                content@,
                mv.subrange(0, i as int),
                ctx.owner@,
                ctx.repo@,
                ctx.branch@,
            ).1,
        decreases ms@.len() - i,
    {
        let ghost pre = mv.subrange(0, i + 1);
        assert(pre.drop_last() =~= mv.subrange(0, i as int));
        assert(pre.last() == (ms@[i as int].0@, ms@[i as int].1@));
        let tag = &ms[i].0;
        let src = &ms[i].1;
        if is_relative_path(src.as_str()) {
            let raw = to_raw_url(src.as_str(), ctx);
            let new_tag = replace_text(tag.as_str(), src.as_str(), raw.as_str());
            result = replace_text(result.as_str(), tag.as_str(), new_tag.as_str());
            let title = match alt_attribute(tag.as_str()) {
                Some(a) => a,
                None => {
                    let e = String::new();
                    assert(e@ =~= Seq::<char>::empty());
                    e
                },
            };
            let ghost g0 = gallery_view(gallery@);
            gallery.push(gallery_entry(raw, title));
            assert(gallery_view(gallery@) =~= g0.push(gallery_view(gallery@).last()));
        }
        i = i + 1;
    }
    assert(mv.subrange(0, ms@.len() as int) =~= mv);
    result
}

/// The text after the Markdown images are rewritten, and the gallery
/// entries they add.
pub open spec fn md_images_done(
    content: Seq<char>,
    ms: Seq<(Seq<char>, Seq<char>, Seq<char>)>,
    owner: Seq<char>,
    repo: Seq<char>,
    branch: Seq<char>,
) -> (Seq<char>, Seq<(Seq<char>, Seq<char>, Seq<char>, Seq<char>)>)
    decreases ms.len(),
{
    if ms.len() == 0 {
        (content, Seq::empty())
    } else {
        let (text, items) = md_images_done(content, ms.drop_last(), owner, repo, branch);
        let (whole, alt, src) = ms.last();
        if is_relative_image(src) {
            let raw = raw_address(owner, repo, branch, src);
            (
                replace_all(text, whole, "!["@ + alt + "]("@ + raw + ")"@),
                items.push((raw, alt, Seq::empty(), Seq::empty())),
            )
        } else {
            (text, items)
        }
    }
}

pub fn process_md_images(content: &str, ctx: &PostProcessContext, gallery: &mut Vec<GalleryItem>) -> (r: String)
    ensures
        r@ == md_images_done(content@, md_image_matches(content@), ctx.owner@, ctx.repo@, ctx.branch@).0,
        gallery_view(final(gallery)@) == gallery_view(old(gallery)@) + md_images_done(
            content@,
            md_image_matches(content@),
            ctx.owner@,
            ctx.repo@,
            ctx.branch@,
        ).1,
{
    let ms = md_images(content);
    let ghost mv = triples_view(ms@);
    let mut result = String::from_str(content);
    let mut i: usize = 0;
    assert(mv.subrange(0, 0) =~= Seq::<(Seq<char>, Seq<char>, Seq<char>)>::empty());
    assert(gallery_view(old(gallery)@) + Seq::empty() =~= gallery_view(old(gallery)@));
    while i < ms.len()
        invariant
            i <= ms@.len(),
            mv == triples_view(ms@),
            mv == md_image_matches(content@),
            result@ == md_images_done(content@, mv.subrange(0, i as int), ctx.owner@, ctx.repo@, ctx.branch@).0,
            gallery_view(gallery@) == gallery_view(old(gallery)@) + md_images_done(
                content@,
                mv.subrange(0, i as int),
                ctx.owner@,
                ctx.repo@,
                ctx.branch@,
            ).1,
        decreases ms@.len() - i,
    {
        let ghost pre = mv.subrange(0, i + 1);
        assert(pre.drop_last() =~= mv.subrange(0, i as int));
        assert(pre.last() == (ms@[i as int].0@, ms@[i as int].1@, ms@[i as int].2@));
        let whole = &ms[i].0;
        let alt = &ms[i].1;
        let src = &ms[i].2;
        if is_relative_path(src.as_str()) {
            let raw = to_raw_url(src.as_str(), ctx);
            let mut new_md = String::from_str("![");
            new_md.append(alt.as_str());
            new_md.append("](");
            new_md.append(raw.as_str());
            new_md.append(")");
            result = replace_text(result.as_str(), whole.as_str(), new_md.as_str());
            let ghost g0 = gallery_view(gallery@);
            gallery.push(gallery_entry(raw, alt.clone()));
            assert(gallery_view(gallery@) =~= g0.push(gallery_view(gallery@).last()));
        }
        i = i + 1;
    }
    assert(mv.subrange(0, ms@.len() as int) =~= mv);
    result
}

/// The text after the Markdown links (not images) are rewritten.
pub open spec fn md_links_done(
    content: Seq<char>,
    ms: Seq<(Seq<char>, int, Seq<char>, Seq<char>)>,
    owner: Seq<char>,
    repo: Seq<char>,
    branch: Seq<char>,
) -> Seq<char>
    decreases ms.len(),
{
    if ms.len() == 0 {
        content
    } else {
        let text = md_links_done(content, ms.drop_last(), owner, repo, branch);
        let (whole, start, label, href) = ms.last();
        let is_image = start > 0 && start - 1 < content.len() && content[start - 1] == '!';
        if !is_image && is_relative_link(href) {
            replace_all(text, whole, "["@ + label + "]("@ + blob_address(owner, repo, branch, href) + ")"@)
        } else {
            text
        }
    }
}

pub fn process_md_links(content: &str, ctx: &PostProcessContext) -> (r: String)
    ensures
        r@ == md_links_done(content@, md_link_matches(content@), ctx.owner@, ctx.repo@, ctx.branch@),
{
    let ms = md_links(content);
    let chars = chars_of(content);
    let ghost mv = links_view(ms@);
    let mut result = String::from_str(content);
    let mut i: usize = 0;
    assert(mv.subrange(0, 0) =~= Seq::<(Seq<char>, int, Seq<char>, Seq<char>)>::empty());
    while i < ms.len()
        invariant
            i <= ms@.len(),
            chars@ == content@,
            mv == links_view(ms@),
            mv == md_link_matches(content@),
            forall|j: int| 0 <= j < ms@.len() ==> #[trigger] ms@[j].1 <= chars@.len(),
            result@ == md_links_done(content@, mv.subrange(0, i as int), ctx.owner@, ctx.repo@, ctx.branch@),
        decreases ms@.len() - i,
    {
        let ghost pre = mv.subrange(0, i + 1);
        assert(pre.drop_last() =~= mv.subrange(0, i as int));
        assert(pre.last() == (ms@[i as int].0@, ms@[i as int].1 as int, ms@[i as int].2@, ms@[i as int].3@));
        let whole = &ms[i].0;
        let start = ms[i].1;
        let label = &ms[i].2;
        let href = &ms[i].3;
        let is_image = start > 0 && chars[start - 1] == '!';
        if !is_image && is_relative_link_path(href.as_str()) {
            let blob = to_blob_url(href.as_str(), ctx);
            let mut new_md = String::from_str("[");
            new_md.append(label.as_str());
            new_md.append("](");
            new_md.append(blob.as_str());
            new_md.append(")");
            result = replace_text(result.as_str(), whole.as_str(), new_md.as_str());
        }
        i = i + 1;
    }
    assert(mv.subrange(0, ms@.len() as int) =~= mv);
    result
}

/// The text after the HTML anchor targets are rewritten.
pub open spec fn html_links_done(
    content: Seq<char>,
    ms: Seq<(Seq<char>, Seq<char>)>,
    owner: Seq<char>,
    repo: Seq<char>,
    branch: Seq<char>,
) -> Seq<char>
    decreases ms.len(),
{
    if ms.len() == 0 {
        content
    } else {
        let text = html_links_done(content, ms.drop_last(), owner, repo, branch);
        let (tag, href) = ms.last();
        if is_relative_link(href) {
            replace_all(text, tag, replace_all(tag, href, blob_address(owner, repo, branch, href)))
        } else {
            text
        }
    }
}

pub fn process_html_links(content: &str, ctx: &PostProcessContext) -> (r: String)
    ensures
        r@ == html_links_done(content@, html_link_matches(content@), ctx.owner@, ctx.repo@, ctx.branch@),
{
    let ms = html_anchor_tags(content);
    let ghost mv = pairs_view(ms@);
    let mut result = String::from_str(content);
    let mut i: usize = 0;
    assert(mv.subrange(0, 0) =~= Seq::<(Seq<char>, Seq<char>)>::empty());
    while i < ms.len()
        invariant
            i <= ms@.len(),
            mv == pairs_view(ms@),
            mv == html_link_matches(content@),
            result@ == html_links_done(content@, mv.subrange(0, i as int), ctx.owner@, ctx.repo@, ctx.branch@),
        decreases ms@.len() - i,
    {
        let ghost pre = mv.subrange(0, i + 1);
        assert(pre.drop_last() =~= mv.subrange(0, i as int));
        assert(pre.last() == (ms@[i as int].0@, ms@[i as int].1@));
        let tag = &ms[i].0;
        let href = &ms[i].1;
        if is_relative_link_path(href.as_str()) {
            let blob = to_blob_url(href.as_str(), ctx);
            let new_tag = replace_text(tag.as_str(), href.as_str(), blob.as_str());
            result = replace_text(result.as_str(), tag.as_str(), new_tag.as_str());
        }
        i = i + 1;
    }
    assert(mv.subrange(0, ms@.len() as int) =~= mv);
    result
}

/// A README with its images and links made absolute.
pub open spec fn readme_text(readme: Seq<char>, owner: Seq<char>, repo: Seq<char>, branch: Seq<char>) -> Seq<char> {
    let t1 = html_images_done(readme, html_image_matches(readme), owner, repo, branch).0;
    let t2 = md_images_done(t1, md_image_matches(t1), owner, repo, branch).0;
    let t3 = md_links_done(t2, md_link_matches(t2), owner, repo, branch);
    html_links_done(t3, html_link_matches(t3), owner, repo, branch)
}

/// The gallery entries of a README's rewritten images.
pub open spec fn readme_gallery(readme: Seq<char>, owner: Seq<char>, repo: Seq<char>, branch: Seq<char>) -> Seq<(Seq<char>, Seq<char>, Seq<char>, Seq<char>)> {
    let (t1, g1) = html_images_done(readme, html_image_matches(readme), owner, repo, branch);
    g1 + md_images_done(t1, md_image_matches(t1), owner, repo, branch).1
}

/// The README with its images and links made absolute, and the gallery
/// entries of its rewritten images.
pub fn process_readme(readme: &str, ctx: &PostProcessContext) -> (r: (String, Vec<GalleryItem>))
    ensures
        r.0@ == readme_text(readme@, ctx.owner@, ctx.repo@, ctx.branch@),
        gallery_view(r.1@) == readme_gallery(readme@, ctx.owner@, ctx.repo@, ctx.branch@),
{
    let mut gallery: Vec<GalleryItem> = Vec::new();
    assert(gallery_view(gallery@) =~= Seq::empty());
    let a = process_html_images(readme, ctx, &mut gallery);
    let b = process_md_images(a.as_str(), ctx, &mut gallery);
    let c = process_md_links(b.as_str(), ctx);
    let d = process_html_links(c.as_str(), ctx);
    assert(gallery_view(gallery@) =~= readme_gallery(readme@, ctx.owner@, ctx.repo@, ctx.branch@));
    (d, gallery)
}

} // verus!
