use vstd::prelude::*;
use vstd::utf8::encode_utf8;

use crate::decimal::{
    format_i32, i32_from_text, i32_text, is_canonical_decimal, lemma_parse_then_format,
    parse_i32_in,
};
use crate::text::{
    chars_of, lemma_split_on_nonempty, split_on, split_spans, split_terminated,
    split_terminated_spans, spans_hold, trim_end_char, trim_end_in,
};
use crate::urlpath::{get_path, parsed_url_path};

verus! {

/// The hidden `ImageObject` thumbnail block for one resolution `w`x`h` of
/// aspect ratio `aw`:`ah`, with the four numbers given as text.
pub open spec fn thumbnail_template(
    aw: Seq<char>,
    ah: Seq<char>,
    w: Seq<char>,
    h: Seq<char>,
    url: Seq<char>,
    file_name: Seq<char>,
    description: Seq<char>,
) -> Seq<char> {
    "<div itemscope=\"\" itemtype=\"http://schema.org/ImageObject\" itemprop=\"thumbnail\" style=\"display:none;\">\n    <link itemprop=\"contentUrl\" href=\""@
        + url + "/"@ + file_name + "_"@ + aw + "_"@ + ah + "_"@ + w
        + "_1.jpg\">\n    <meta itemprop=\"width\" content=\""@ + w
        + "px\">\n    <meta itemprop=\"height\" content=\""@ + h
        + "px\">\n    <meta itemprop=\"name\" content=\""@ + description
        + ". Размер фото "@ + w + "x"@ + h + ", отношение сторон "@ + aw + ":"@ + ah
        + ".\">\n  </div>\n  "@
}

/// The thumbnail block for one resolution `w`x`h` of aspect ratio `aw`:`ah`,
/// each number written as `i32`'s `Display` writes it.
pub open spec fn thumbnail_div_text(
    aw: i32,
    ah: i32,
    w: i32,
    h: i32,
    url: Seq<char>,
    file_name: Seq<char>,
    description: Seq<char>,
) -> Seq<char> {
    thumbnail_template(
        i32_text(aw),
        i32_text(ah),
        i32_text(w),
        i32_text(h),
        url,
        file_name,
        description,
    )
}

/// Writes the thumbnail block for one resolution of one aspect ratio.
pub fn div(
    aw: i32,
    ah: i32,
    w: i32,
    h: i32,
    url: &str,
    file_name: &str,
    description: &str,
) -> (s: String)
    ensures
        s@ == thumbnail_div_text(aw, ah, w, h, url@, file_name@, description@),
{
    let aw_s = format_i32(aw);
    let ah_s = format_i32(ah);
    let w_s = format_i32(w);
    let h_s = format_i32(h);
    let mut s = String::from_str(
        "<div itemscope=\"\" itemtype=\"http://schema.org/ImageObject\" itemprop=\"thumbnail\" style=\"display:none;\">\n    <link itemprop=\"contentUrl\" href=\"",
    );
    s.append(url);
    s.append("/");
    s.append(file_name);
    s.append("_");
    s.append(aw_s.as_str());
    s.append("_");
    s.append(ah_s.as_str());
    s.append("_");
    s.append(w_s.as_str());
    s.append("_1.jpg\">\n    <meta itemprop=\"width\" content=\"");
    s.append(w_s.as_str());
    s.append("px\">\n    <meta itemprop=\"height\" content=\"");
    s.append(h_s.as_str());
    s.append("px\">\n    <meta itemprop=\"name\" content=\"");
    s.append(description);
    s.append(". Размер фото ");
    s.append(w_s.as_str());
    s.append("x");
    s.append(h_s.as_str());
    s.append(", отношение сторон ");
    s.append(aw_s.as_str());
    s.append(":");
    s.append(ah_s.as_str());
    s.append(".\">\n  </div>\n  ");
    s
}

/// The `srcset` attribute listing the four widths 320, 640, 1280 and 1920
/// of `file_name` under `path`.
pub open spec fn srcset_text(path: Seq<char>, file_name: Seq<char>) -> Seq<char> {
    let full = path + "/"@ + file_name;
    "srcset=\""@ + full + "_o_320_1.jpg 320w"@ + ",\n"@ + full + "_o_640_1.jpg 640w"@ + ",\n"@
        + full + "_o_1280_1.jpg 1280w"@ + ",\n"@ + full + "_o_1920_1.jpg 1920w"@ + "\""@
}

/// Writes the `srcset` attribute for `fname` under `path`.
pub fn gen_srcset(path: &str, fname: &str) -> (s: String)
    ensures
        s@ == srcset_text(path@, fname@),
{
    let mut full = String::from_str(path);
    full.append("/");
    full.append(fname);
    let full = full.as_str();
    let mut s = String::from_str("srcset=\"");
    s.append(full);
    s.append("_o_320_1.jpg 320w");
    s.append(",\n");
    s.append(full);
    s.append("_o_640_1.jpg 640w");
    s.append(",\n");
    s.append(full);
    s.append("_o_1280_1.jpg 1280w");
    s.append(",\n");
    s.append(full);
    s.append("_o_1920_1.jpg 1920w");
    s.append("\"");
    s
}

/// The thumbnail block for one `<w>x<h>` resolution entry of the aspect ratio
/// `aw`:`ah`; `None` where the entry lacks a height or one of the four numbers
/// does not parse as an `i32`.
pub open spec fn resolution_div_text(
    resolution: Seq<char>,
    aw: Seq<char>,
    ah: Seq<char>,
    url: Seq<char>,
    file_name: Seq<char>,
    description: Seq<char>,
) -> Option<Seq<char>> {
    let size = split_terminated(resolution, 'x');
    if size.len() < 2 {
        None
    } else {
        match (
            i32_from_text(aw),
            i32_from_text(ah),
            i32_from_text(size[0]),
            i32_from_text(size[1]),
        ) {
            (Some(a_w), Some(a_h), Some(w), Some(h)) => Some(
                thumbnail_div_text(a_w, a_h, w, h, url, file_name, description),
            ),
            _ => None,
        }
    }
}

/// The thumbnail blocks for a list of resolution entries, one after another;
/// `None` as soon as one entry has none.
pub open spec fn resolutions_text(
    resolutions: Seq<Seq<char>>,
    aw: Seq<char>,
    ah: Seq<char>,
    url: Seq<char>,
    file_name: Seq<char>,
    description: Seq<char>,
) -> Option<Seq<char>>
    decreases resolutions.len(),
{
    if resolutions.len() == 0 {
        Some(Seq::<char>::empty())
    } else {
        match (
            resolutions_text(resolutions.drop_last(), aw, ah, url, file_name, description),
            resolution_div_text(resolutions.last(), aw, ah, url, file_name, description),
        ) {
            (Some(init), Some(last)) => Some(init + last),
            _ => None,
        }
    }
}

/// The thumbnail blocks of one `<aw>:<ah>_<w>x<h>,<w>x<h>...` aspect-ratio
/// group; `None` where the group has no resolution list or its ratio has no
/// second number, or one of its resolutions has no block.
pub open spec fn ratio_group_text(
    group: Seq<char>,
    url: Seq<char>,
    file_name: Seq<char>,
    description: Seq<char>,
) -> Option<Seq<char>> {
    let parts = split_terminated(group, '_');
    if parts.len() < 2 {
        None
    } else {
        let ratio = split_terminated(parts[0], ':');
        if ratio.len() < 2 {
            None
        } else {
            resolutions_text(
                split_terminated(parts[1], ','),
                ratio[0],
                ratio[1],
                url,
                file_name,
                description,
            )
        }
    }
}

/// The thumbnail blocks of a list of aspect-ratio groups, one after another;
/// `None` as soon as one group has none.
pub open spec fn ratio_groups_text(
    groups: Seq<Seq<char>>,
    url: Seq<char>,
    file_name: Seq<char>,
    description: Seq<char>,
) -> Option<Seq<char>>
    decreases groups.len(),
{
    if groups.len() == 0 {
        Some(Seq::<char>::empty())
    } else {
        match (
            ratio_groups_text(groups.drop_last(), url, file_name, description),
            ratio_group_text(groups.last(), url, file_name, description),
        ) {
            (Some(init), Some(last)) => Some(init + last),
            _ => None,
        }
    }
}

/// The same outcome as a spec `Option<Seq<char>>`.
pub open spec fn text_outcome(r: Option<String>) -> Option<Seq<char>> {
    match r {
        Some(s) => Some(s@),
        None => None,
    }
}

/// Writes the thumbnail block for the resolution entry `chars[start..end]`.
fn resolution_div_in(
    chars: &Vec<char>,
    start: usize,
    end: usize,
    aw: (usize, usize),
    ah: (usize, usize),
    url: &str,
    file_name: &str,
    description: &str,
) -> (r: Option<String>)
    requires
        start <= end <= chars@.len(),
        aw.0 <= aw.1 <= chars@.len(),
        ah.0 <= ah.1 <= chars@.len(),
    ensures
        text_outcome(r) == resolution_div_text(
            chars@.subrange(start as int, end as int),
            chars@.subrange(aw.0 as int, aw.1 as int),
            chars@.subrange(ah.0 as int, ah.1 as int),
            url@,
            file_name@,
            description@,
        ),
{
    let size = split_terminated_spans(chars, start, end, 'x');
    if size.len() < 2 {
        return None;
    }
    let a_w = parse_i32_in(chars, aw.0, aw.1);
    let a_h = parse_i32_in(chars, ah.0, ah.1);
    let w = parse_i32_in(chars, size[0].0, size[0].1);
    let h = parse_i32_in(chars, size[1].0, size[1].1);
    match (a_w, a_h, w, h) {
        (Some(a_w), Some(a_h), Some(w), Some(h)) => Some(
            div(a_w, a_h, w, h, url, file_name, description),
        ),
        _ => None,
    }
}

/// Writes the thumbnail blocks of the aspect-ratio group `chars[start..end]`.
fn ratio_group_in(
    chars: &Vec<char>,
    start: usize,
    end: usize,
    url: &str,
    file_name: &str,
    description: &str,
) -> (r: Option<String>)
    requires
        start <= end <= chars@.len(),
    ensures
        text_outcome(r) == ratio_group_text(
            chars@.subrange(start as int, end as int),
            url@,
            file_name@,
            description@,
        ),
{
    let parts = split_terminated_spans(chars, start, end, '_');
    if parts.len() < 2 {
        return None;
    }
    let ratio = split_terminated_spans(chars, parts[0].0, parts[0].1, ':');
    if ratio.len() < 2 {
        return None;
    }
    let aw = ratio[0];
    let ah = ratio[1];
    let resolutions = split_terminated_spans(chars, parts[1].0, parts[1].1, ',');
    let ghost res_texts = split_terminated(chars@.subrange(parts[1].0 as int, parts[1].1 as int), ',');
    let ghost aw_text = chars@.subrange(aw.0 as int, aw.1 as int);
    let ghost ah_text = chars@.subrange(ah.0 as int, ah.1 as int);
    let mut out = String::new();
    let mut ok = true;
    let mut k: usize = 0;
    while k < resolutions.len()
        invariant
            k <= resolutions@.len(),
            aw.0 <= aw.1 <= chars@.len(),
            ah.0 <= ah.1 <= chars@.len(),
            aw_text == chars@.subrange(aw.0 as int, aw.1 as int),
            ah_text == chars@.subrange(ah.0 as int, ah.1 as int),
            spans_hold(chars@, resolutions@, res_texts, 0, chars@.len() as int),
            ok ==> resolutions_text(
                res_texts.take(k as int),
                aw_text,
                ah_text,
                url@,
                file_name@,
                description@,
            ) == Some(out@),
            !ok ==> resolutions_text(
                res_texts.take(k as int),
                aw_text,
                ah_text,
                url@,
                file_name@,
                description@,
            ) is None,
        decreases resolutions@.len() - k,
    {
        assert(res_texts.take(k + 1).drop_last() =~= res_texts.take(k as int));
        assert(res_texts.take(k + 1).last() == res_texts[k as int]);
        if ok {
            let span = resolutions[k];
            match resolution_div_in(chars, span.0, span.1, aw, ah, url, file_name, description) {
                Some(block) => {
                    out.append(block.as_str());
                },
                None => {
                    ok = false;
                },
            }
        }
        k = k + 1;
    }
    assert(res_texts.take(k as int) =~= res_texts);
    if ok {
        Some(out)
    } else {
        None
    }
}

/// Writes the thumbnail blocks of every aspect-ratio group of the
/// `;`-separated list `chars[start..end]`.
fn ratio_groups_in(
    chars: &Vec<char>,
    start: usize,
    end: usize,
    url: &str,
    file_name: &str,
    description: &str,
) -> (r: Option<String>)
    requires
        start <= end <= chars@.len(),
    ensures
        text_outcome(r) == ratio_groups_text(
            split_terminated(chars@.subrange(start as int, end as int), ';'),
            url@,
            file_name@,
            description@,
        ),
{
    let groups = split_terminated_spans(chars, start, end, ';');
    let ghost group_texts = split_terminated(chars@.subrange(start as int, end as int), ';');
    let mut out = String::new();
    let mut ok = true;
    let mut k: usize = 0;
    while k < groups.len()
        invariant
            k <= groups@.len(),
            spans_hold(chars@, groups@, group_texts, start as int, end as int),
            end <= chars@.len(),
            ok ==> ratio_groups_text(group_texts.take(k as int), url@, file_name@, description@)
                == Some(out@),
            !ok ==> ratio_groups_text(
                group_texts.take(k as int),
                url@,
                file_name@,
                description@,
            ) is None,
        decreases groups@.len() - k,
    {
        assert(group_texts.take(k + 1).drop_last() =~= group_texts.take(k as int));
        assert(group_texts.take(k + 1).last() == group_texts[k as int]);
        if ok {
            let span = groups[k];
            match ratio_group_in(chars, span.0, span.1, url, file_name, description) {
                Some(block) => {
                    out.append(block.as_str());
                },
                None => {
                    ok = false;
                },
            }
        }
        k = k + 1;
    }
    assert(group_texts.take(k as int) =~= group_texts);
    if ok {
        Some(out)
    } else {
        None
    }
}

/// The base URL of the thumbnails: the first settings field without its
/// trailing slashes when that field is at least 9 bytes long in UTF-8, and
/// `https://test.domain/upload/images` otherwise.
pub open spec fn schema_url(first_field: Seq<char>) -> Seq<char> {
    if encode_utf8(first_field).len() >= 9 {
        trim_end_char(first_field, '/')
    } else {
        "https://test.domain/upload/images"@
    }
}

/// The `<img>` element of the picture `file_name` under `path`.
pub open spec fn image_tag_text(path: Seq<char>, file_name: Seq<char>, alt: Seq<char>) -> Seq<
    char,
> {
    "<img decoding=\"async\" itemprop=\"contentUrl\" sizes=\"(max-width: 1280px) 320px, 640px, 1280px\" "@
        + srcset_text(path, file_name) + "\nsrc=\""@ + path + "/"@ + file_name
        + "_1.jpg\"\nalt=\""@ + alt + "\">"@
}

/// The whole `ImageObject` block for the settings fields `props` (url, file
/// name, description, alt text, meta name, meta description, ...), the URL
/// path `path`, the original size `width` x `height` and the thumbnail
/// blocks `thumbnails`.
pub open spec fn schema_block_text(
    props: Seq<Seq<char>>,
    path: Seq<char>,
    width: Seq<char>,
    height: Seq<char>,
    thumbnails: Seq<char>,
) -> Seq<char> {
    "<div itemprop=\"image\" itemscope=\"\" itemtype=\"http://schema.org/ImageObject\" class=\"ImageObject_cont\">"@
        + "\n"@ + image_tag_text(path, props[1], props[3]) + "\n"@
        + "<meta itemprop=\"name\" content=\""@ + props[4] + "\">"@ + "\n"@
        + "<meta itemprop=\"description\" content=\""@ + props[5] + "\">"@ + "\n"@
        + "<meta itemprop=\"width\" content=\""@ + width
        + "px\">\n<meta itemprop=\"height\" content=\""@ + height + "px\">"@ + "\n"@
        + thumbnails + "\n"@ + "</div>"@
}

/// The markup for the `|`-separated settings `props_text`, given the path of
/// the thumbnails' base URL; `None` where the settings have fewer than seven
/// fields or the aspect-ratio list (the seventh field) is malformed.
pub open spec fn schema_markup(
    props_text: Seq<char>,
    path: Seq<char>,
    width: Seq<char>,
    height: Seq<char>,
) -> Option<Seq<char>> {
    let props = split_on(props_text, '|');
    if props.len() < 7 {
        None
    } else {
        match ratio_groups_text(
            split_terminated(props[6], ';'),
            schema_url(props[0]),
            props[1],
            props[2],
        ) {
            Some(thumbnails) => Some(schema_block_text(props, path, width, height, thumbnails)),
            None => None,
        }
    }
}

/// What `div_creator` writes for the settings `props_text`: the markup with
/// the path of the base URL as the url crate reads it; `None` where the base
/// URL does not parse or the settings are malformed.
pub open spec fn div_creator_text(props_text: Seq<char>, width: Seq<char>, height: Seq<char>) -> Option<
    Seq<char>,
> {
    match parsed_url_path(schema_url(split_on(props_text, '|')[0])) {
        Some(path) => schema_markup(props_text, path, width, height),
        None => None,
    }
}

/// The base URL taken from the settings field `s[span]`.
fn schema_url_in<'a>(s: &'a str, chars: &Vec<char>, span: (usize, usize)) -> (url: &'a str)
    requires
        chars@ == s@,
        span.0 <= span.1 <= chars@.len(),
    ensures
        url@ == schema_url(chars@.subrange(span.0 as int, span.1 as int)),
{
    let first = s.substring_char(span.0, span.1);
    if first.as_bytes().len() >= 9 {
        let e: usize = trim_end_in(chars, span.0, span.1, '/');
        s.substring_char(span.0, e)
    } else {
        "https://test.domain/upload/images"
    }
}

/// Writes the `<img>` element of `file_name` under `path`.
fn image_tag(path: &str, file_name: &str, alt: &str) -> (s: String)
    ensures
        s@ == image_tag_text(path@, file_name@, alt@),
{
    let srcset = gen_srcset(path, file_name);
    let mut s = String::from_str(
        "<img decoding=\"async\" itemprop=\"contentUrl\" sizes=\"(max-width: 1280px) 320px, 640px, 1280px\" ",
    );
    s.append(srcset.as_str());
    s.append("\nsrc=\"");
    s.append(path);
    s.append("/");
    s.append(file_name);
    s.append("_1.jpg\"\nalt=\"");
    s.append(alt);
    s.append("\">");
    s
}

/// Writes the `ImageObject` markup for the settings `tmp_props` with
/// `path` as the path of the thumbnails' base URL; `None` where the settings
/// are malformed.
pub fn render_schema(tmp_props: &str, path: &str, width: &str, height: &str) -> (r: Option<String>)
    ensures
        text_outcome(r) == schema_markup(tmp_props@, path@, width@, height@),
{
    let chars = chars_of(tmp_props);
    assert(chars@.subrange(0, chars@.len() as int) =~= chars@);
    let props = split_spans(&chars, 0, chars.len(), '|');
    let ghost fields = split_on(tmp_props@, '|');
    if props.len() < 7 {
        return None;
    }
    let url = schema_url_in(tmp_props, &chars, props[0]);
    let file_name = tmp_props.substring_char(props[1].0, props[1].1);
    let description = tmp_props.substring_char(props[2].0, props[2].1);
    let alt = tmp_props.substring_char(props[3].0, props[3].1);
    let meta_name = tmp_props.substring_char(props[4].0, props[4].1);
    let meta_description = tmp_props.substring_char(props[5].0, props[5].1);
    let thumbnails = match ratio_groups_in(&chars, props[6].0, props[6].1, url, file_name, description) {
        Some(t) => t,
        None => {
            return None;
        },
    };
    let img = image_tag(path, file_name, alt);
    let mut s = String::from_str(
        "<div itemprop=\"image\" itemscope=\"\" itemtype=\"http://schema.org/ImageObject\" class=\"ImageObject_cont\">",
    );
    s.append("\n");
    s.append(img.as_str());
    s.append("\n");
    s.append("<meta itemprop=\"name\" content=\"");
    s.append(meta_name);
    s.append("\">");
    s.append("\n");
    s.append("<meta itemprop=\"description\" content=\"");
    s.append(meta_description);
    s.append("\">");
    s.append("\n");
    s.append("<meta itemprop=\"width\" content=\"");
    s.append(width);
    s.append("px\">\n<meta itemprop=\"height\" content=\"");
    s.append(height);
    s.append("px\">");
    s.append("\n");
    s.append(thumbnails.as_str());
    s.append("\n");
    s.append("</div>");
    Some(s)
}

/// Writes the schema.org `ImageObject` markup for the `|`-separated settings
/// `tmp_props` (base URL, file name, description, alt text, meta name, meta
/// description, aspect-ratio list) and the original size `width` x `height`.
/// The base URL's path comes from the url crate.
pub fn div_creator(tmp_props: &str, width: &str, height: &str) -> (s: String)
    requires
        div_creator_text(tmp_props@, width@, height@) is Some,
    ensures
        Some(s@) == div_creator_text(tmp_props@, width@, height@),
{
    let chars = chars_of(tmp_props);
    assert(chars@.subrange(0, chars@.len() as int) =~= chars@);
    let props = split_spans(&chars, 0, chars.len(), '|');
    proof {
        lemma_split_on_nonempty(tmp_props@, '|');
    }
    let url = schema_url_in(tmp_props, &chars, props[0]);
    let path = get_path(url).unwrap();
    render_schema(tmp_props, path.as_str(), width, height).unwrap()
}

/// `div_creator` where its settings are well formed and its base URL
/// parses; `None` otherwise, where `div_creator` itself would not return.
pub fn try_div_creator(tmp_props: &str, width: &str, height: &str) -> (r: Option<String>)
    ensures
        text_outcome(r) == div_creator_text(tmp_props@, width@, height@),
{
    let chars = chars_of(tmp_props);
    assert(chars@.subrange(0, chars@.len() as int) =~= chars@);
    let props = split_spans(&chars, 0, chars.len(), '|');
    proof {
        lemma_split_on_nonempty(tmp_props@, '|');
    }
    let url = schema_url_in(tmp_props, &chars, props[0]);
    match get_path(url) {
        None => None,
        Some(path) => match render_schema(tmp_props, path.as_str(), width, height) {
            None => None,
            Some(_) => Some(div_creator(tmp_props, width, height)),
        },
    }
}

/// A thumbnail repeats the numbers of its settings as they are spelled there:
/// where the ratio and the size of a resolution entry are written as `i32`'s
/// `Display` writes them, its block holds that very text.
pub proof fn lemma_thumbnail_keeps_spelling(
    resolution: Seq<char>,
    aw: Seq<char>,
    ah: Seq<char>,
    url: Seq<char>,
    file_name: Seq<char>,
    description: Seq<char>,
)
    requires
        resolution_div_text(resolution, aw, ah, url, file_name, description) is Some,
        is_canonical_decimal(aw),
        is_canonical_decimal(ah),
        is_canonical_decimal(split_terminated(resolution, 'x')[0]),
        is_canonical_decimal(split_terminated(resolution, 'x')[1]),
    ensures
        resolution_div_text(resolution, aw, ah, url, file_name, description) == Some(
            thumbnail_template(
                aw,
                ah,
                split_terminated(resolution, 'x')[0],
                split_terminated(resolution, 'x')[1],
                url,
                file_name,
                description,
            ),
        ),
{
    let size = split_terminated(resolution, 'x');
    lemma_parse_then_format(aw);
    lemma_parse_then_format(ah);
    lemma_parse_then_format(size[0]);
    lemma_parse_then_format(size[1]);
}

} // verus!
