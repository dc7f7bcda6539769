use vstd::prelude::*;

use crate::decimal::{i32_from_text, i32_text};
use crate::urlpath::parsed_url_path;
use crate::rpc::{arguments_outcome, ArgsError, RpcParams, RpcValue};
use crate::markup::{
    div_creator_text, ratio_group_text, ratio_groups_text, resolution_div_text, resolutions_text, schema_markup,
    schema_url, srcset_text, thumbnail_div_text, thumbnail_template,
};
use crate::text::{
    ends_with, has_infix, lemma_ends_with_five, lemma_ends_with_pieces, lemma_infix_halves, lemma_infix_of_concat,
    lemma_infix_trans, lemma_split_concat, lemma_trim_end_char, lemma_split_without_separator,
    lemma_starts_with_trans, split_on, split_terminated, starts_with,
};

verus! {

/// The meta lines of the picture's size in the markup.
pub open spec fn size_lines(width: Seq<char>, height: Seq<char>) -> Seq<char> {
    "<meta itemprop=\"width\" content=\""@ + width + "px\">\n<meta itemprop=\"height\" content=\""@
        + height + "px\">"@
}

/// Each field of the settings lands where it belongs in the markup, for all
/// settings, paths and size texts: the width meta line holds `width` and the
/// height meta line right after it holds `height`; the meta name and meta
/// description hold the fifth and sixth fields; the `<img>` carries the
/// `srcset` of the file name (second field) under `path`, its `src` and the
/// alt text (fourth field); and the markup ends with the thumbnails of the
/// aspect-ratio list (seventh field), then the closing `</div>`.
pub proof fn lemma_markup_fields(
    props_text: Seq<char>,
    path: Seq<char>,
    width: Seq<char>,
    height: Seq<char>,
)
    requires
        schema_markup(props_text, path, width, height) is Some,
    ensures
        ({
            let m = schema_markup(props_text, path, width, height)->0;
            let props = split_on(props_text, '|');
            let thumbnails = ratio_groups_text(
                split_terminated(props[6], ';'),
                schema_url(props[0]),
                props[1],
                props[2],
            );
            &&& starts_with(
                m,
                "<div itemprop=\"image\" itemscope=\"\" itemtype=\"http://schema.org/ImageObject\" class=\"ImageObject_cont\">"@,
            )
            &&& has_infix(m, size_lines(width, height))
            &&& has_infix(m, "<meta itemprop=\"name\" content=\""@ + props[4] + "\">"@)
            &&& has_infix(m, "<meta itemprop=\"description\" content=\""@ + props[5] + "\">"@)
            &&& has_infix(m, srcset_text(path, props[1]))
            &&& has_infix(
                m,
                "\nsrc=\""@ + path + "/"@ + props[1] + "_1.jpg\"\nalt=\""@ + props[3] + "\">"@,
            )
            &&& thumbnails is Some
            &&& ends_with(m, "\n"@ + thumbnails->0 + "\n"@ + "</div>"@)
        }),
{
    let props = split_on(props_text, '|');
    let t = ratio_groups_text(
        split_terminated(props[6], ';'),
        schema_url(props[0]),
        props[1],
        props[2],
    )->0;
    let img = crate::markup::image_tag_text(path, props[1], props[3]);
    let img_open = "<img decoding=\"async\" itemprop=\"contentUrl\" sizes=\"(max-width: 1280px) 320px, 640px, 1280px\" "@;
    let srcset = srcset_text(path, props[1]);
    let src_alt = "\nsrc=\""@ + path + "/"@ + props[1] + "_1.jpg\"\nalt=\""@ + props[3] + "\">"@;
    assert(img =~= img_open + srcset + src_alt);
    lemma_block_pieces(
        "<div itemprop=\"image\" itemscope=\"\" itemtype=\"http://schema.org/ImageObject\" class=\"ImageObject_cont\">"@,
        "\n"@,
        img_open,
        srcset,
        src_alt,
        "<meta itemprop=\"name\" content=\""@,
        props[4],
        "\">"@,
        "<meta itemprop=\"description\" content=\""@,
        props[5],
        "<meta itemprop=\"width\" content=\""@,
        width,
        "px\">\n<meta itemprop=\"height\" content=\""@,
        height,
        "px\">"@,
        t,
        "</div>"@,
    );
}

/// Where each piece of a block laid out as the markup is stands in it.
proof fn lemma_block_pieces(
    wrapper: Seq<char>,
    nl: Seq<char>,
    img_open: Seq<char>,
    srcset: Seq<char>,
    src_alt: Seq<char>,
    name_open: Seq<char>,
    name: Seq<char>,
    close: Seq<char>,
    descr_open: Seq<char>,
    descr: Seq<char>,
    width_open: Seq<char>,
    width: Seq<char>,
    height_open: Seq<char>,
    height: Seq<char>,
    size_close: Seq<char>,
    thumbnails: Seq<char>,
    end_tag: Seq<char>,
)
    ensures
        ({
            let m = wrapper + nl + (img_open + srcset + src_alt) + nl + name_open + name + close
                + nl + descr_open + descr + close + nl + width_open + width + height_open + height
                + size_close + nl + thumbnails + nl + end_tag;
            let size = width_open + width + height_open + height + size_close;
            &&& starts_with(m, wrapper)
            &&& has_infix(m, size)
            &&& has_infix(m, name_open + name + close)
            &&& has_infix(m, descr_open + descr + close)
            &&& has_infix(m, srcset)
            &&& has_infix(m, src_alt)
            &&& ends_with(m, nl + thumbnails + nl + end_tag)
        }),
{
    let img = img_open + srcset + src_alt;
    let n1 = wrapper + nl;
    let n2 = n1 + img;
    let n3 = n2 + nl + name_open + name + close;
    let n4 = n3 + nl + descr_open + descr + close;
    let size = width_open + width + height_open + height + size_close;
    let n5 = n4 + nl + width_open + width + height_open + height + size_close;
    let n6 = n5 + nl + thumbnails;
    let m = n6 + nl + end_tag;
    lemma_ends_with_pieces(n6, Seq::<char>::empty(), nl, end_tag);
    assert(n6 + Seq::<char>::empty() + nl + end_tag =~= m);
    // the end
    lemma_ends_with_pieces(n5, nl, thumbnails, nl + end_tag);
    assert(n5 + nl + thumbnails + (nl + end_tag) =~= m);
    assert(nl + thumbnails + (nl + end_tag) =~= nl + thumbnails + nl + end_tag);
    // the start
    lemma_infix_halves(n6, nl + end_tag);
    assert(n6 + (nl + end_tag) =~= m);
    lemma_infix_halves(n5, nl + thumbnails);
    assert(n5 + (nl + thumbnails) =~= n6);
    lemma_infix_halves(n4, nl + size);
    assert(n4 + (nl + size) =~= n5);
    lemma_infix_halves(n3, nl + descr_open + descr + close);
    assert(n3 + (nl + descr_open + descr + close) =~= n4);
    lemma_infix_halves(n2, nl + name_open + name + close);
    assert(n2 + (nl + name_open + name + close) =~= n3);
    lemma_infix_halves(n1, img);
    lemma_infix_halves(wrapper, nl);
    lemma_starts_with_trans(m, n6, n5);
    lemma_starts_with_trans(m, n5, n4);
    lemma_starts_with_trans(m, n4, n3);
    lemma_starts_with_trans(m, n3, n2);
    lemma_starts_with_trans(m, n2, n1);
    lemma_starts_with_trans(m, n1, wrapper);
    // size
    lemma_ends_with_five(n4 + nl, width_open, width, height_open, height, size_close);
    lemma_infix_halves(n5, nl + thumbnails);
    lemma_infix_halves(n6, nl + end_tag);
    lemma_infix_trans(m, n6, n5);
    lemma_infix_trans(m, n5, size);
    // descr
    lemma_ends_with_pieces(n3 + nl, descr_open, descr, close);
    lemma_infix_trans(m, n5, n4);
    lemma_infix_trans(m, n4, descr_open + descr + close);
    // name
    lemma_ends_with_pieces(n2 + nl, name_open, name, close);
    lemma_infix_halves(n3, nl + descr_open + descr + close);
    lemma_infix_trans(m, n4, n3);
    lemma_infix_trans(m, n3, name_open + name + close);
    // the img parts
    lemma_infix_halves(n2, nl + name_open + name + close);
    lemma_infix_trans(m, n3, n2);
    lemma_infix_trans(m, n2, img);
    lemma_ends_with_pieces(Seq::<char>::empty(), img_open, srcset, src_alt);
    assert(Seq::<char>::empty() + img_open + srcset + src_alt =~= img);
    lemma_infix_halves(img_open + srcset, src_alt);
    lemma_infix_halves(img_open, srcset);
    lemma_infix_trans(m, img, img_open + srcset);
    lemma_infix_trans(m, img_open + srcset, srcset);
    lemma_infix_trans(m, img, src_alt);
}

/// The thumbnail block names its file by the width, and lists the size and
/// ratio as given, for all numbers and texts: its link is
/// `url/file_aw_ah_w_1.jpg` (`w` the width, whichever of `w` and `h` is
/// larger), followed by the width meta line holding `w` and the height meta
/// line holding `h`; its name reads `description. Размер фото wxh, отношение
/// сторон aw:ah.`.
pub proof fn lemma_thumbnail_fields(
    aw: i32,
    ah: i32,
    w: i32,
    h: i32,
    url: Seq<char>,
    file_name: Seq<char>,
    description: Seq<char>,
)
    ensures
        ({
            let d = thumbnail_div_text(aw, ah, w, h, url, file_name, description);
            &&& has_infix(
                d,
                url + "/"@ + file_name + "_"@ + i32_text(aw) + "_"@ + i32_text(ah) + "_"@
                    + i32_text(w) + "_1.jpg\">\n    <meta itemprop=\"width\" content=\""@,
            )
            &&& has_infix(
                d,
                "_1.jpg\">\n    <meta itemprop=\"width\" content=\""@ + i32_text(w)
                    + "px\">\n    <meta itemprop=\"height\" content=\""@ + i32_text(h)
                    + "px\">\n    <meta itemprop=\"name\" content=\""@,
            )
            &&& ends_with(
                d,
                description + ". Размер фото "@ + i32_text(w) + "x"@ + i32_text(h)
                    + ", отношение сторон "@ + i32_text(aw) + ":"@ + i32_text(ah)
                    + ".\">\n  </div>\n  "@,
            )
        }),
{
    lemma_thumbnail_pieces(
        "<div itemscope=\"\" itemtype=\"http://schema.org/ImageObject\" itemprop=\"thumbnail\" style=\"display:none;\">\n    <link itemprop=\"contentUrl\" href=\""@,
        url,
        "/"@,
        file_name,
        "_"@,
        i32_text(aw),
        i32_text(ah),
        i32_text(w),
        "_1.jpg\">\n    <meta itemprop=\"width\" content=\""@,
        "px\">\n    <meta itemprop=\"height\" content=\""@,
        i32_text(h),
        "px\">\n    <meta itemprop=\"name\" content=\""@,
        description,
        ". Размер фото "@,
        "x"@,
        ", отношение сторон "@,
        ":"@,
        ".\">\n  </div>\n  "@,
    );
}

/// Where the runs of a block laid out as a thumbnail is stand in it.
proof fn lemma_thumbnail_pieces(
    head: Seq<char>,
    url: Seq<char>,
    slash: Seq<char>,
    f: Seq<char>,
    us: Seq<char>,
    aw: Seq<char>,
    ah: Seq<char>,
    w: Seq<char>,
    l1: Seq<char>,
    l2: Seq<char>,
    h: Seq<char>,
    l3: Seq<char>,
    descr: Seq<char>,
    l4: Seq<char>,
    x: Seq<char>,
    l5: Seq<char>,
    colon: Seq<char>,
    l6: Seq<char>,
)
    ensures
        ({
            let d = head + url + slash + f + us + aw + us + ah + us + w + l1 + w + l2 + h + l3
                + descr + l4 + w + x + h + l5 + aw + colon + ah + l6;
            &&& has_infix(d, url + slash + f + us + aw + us + ah + us + w + l1)
            &&& has_infix(d, l1 + w + l2 + h + l3)
            &&& ends_with(d, descr + l4 + w + x + h + l5 + aw + colon + ah + l6)
        }),
{
    let r1 = url + slash + f + us + aw + us + ah + us + w + l1;
    let r2 = l1 + w + l2 + h + l3;
    let r3 = descr + l4 + w + x + h + l5 + aw + colon + ah + l6;
    let n10 = head + url + slash + f + us + aw + us + ah + us + w;
    let n11 = n10 + l1;
    let n15 = n11 + w + l2 + h + l3;
    let d = n15 + descr + l4 + w + x + h + l5 + aw + colon + ah + l6;
    assert(d =~= n15 + r3);
    lemma_infix_halves(n15, r3);
    assert(n11 =~= head + r1);
    lemma_infix_halves(head, r1);
    assert(n15 =~= n11 + (w + l2 + h + l3));
    lemma_infix_halves(n11, w + l2 + h + l3);
    lemma_infix_trans(d, n15, n11);
    lemma_infix_trans(d, n11, r1);
    assert(n15 =~= n10 + r2);
    lemma_infix_halves(n10, r2);
    lemma_infix_trans(d, n15, r2);
}

/// The `srcset` lists the four files of the whole file name under the whole
/// path, for every path and file name: each entry is
/// `path/file_name_o_<width>_1.jpg <width>w` for the widths 320, 640, 1280 and
/// 1920, and nothing else is added: the attribute is 87 characters longer
/// than four copies of `path/file_name`.
pub proof fn lemma_srcset_entries(path: Seq<char>, file_name: Seq<char>)
    ensures
        ({
            let s = srcset_text(path, file_name);
            let full = path + "/"@ + file_name;
            &&& has_infix(s, full + "_o_320_1.jpg 320w"@)
            &&& has_infix(s, full + "_o_640_1.jpg 640w"@)
            &&& has_infix(s, full + "_o_1280_1.jpg 1280w"@)
            &&& has_infix(s, full + "_o_1920_1.jpg 1920w"@)
            &&& s.len() == 87 + 4 * (path.len() + file_name.len() + 1)
        }),
{
    reveal_strlit("srcset=\"");
    reveal_strlit("/");
    reveal_strlit("_o_320_1.jpg 320w");
    reveal_strlit("_o_640_1.jpg 640w");
    reveal_strlit("_o_1280_1.jpg 1280w");
    reveal_strlit("_o_1920_1.jpg 1920w");
    reveal_strlit(",\n");
    reveal_strlit("\"");
    lemma_srcset_pieces(
        "srcset=\""@,
        path + "/"@ + file_name,
        "_o_320_1.jpg 320w"@,
        ",\n"@,
        "_o_640_1.jpg 640w"@,
        "_o_1280_1.jpg 1280w"@,
        "_o_1920_1.jpg 1920w"@,
        "\""@,
    );
}

/// Where the entries of an attribute laid out as a `srcset` stand in it.
proof fn lemma_srcset_pieces(
    open: Seq<char>,
    full: Seq<char>,
    a: Seq<char>,
    sep: Seq<char>,
    b: Seq<char>,
    c: Seq<char>,
    d: Seq<char>,
    quote: Seq<char>,
)
    ensures
        ({
            let s = open + full + a + sep + full + b + sep + full + c + sep + full + d + quote;
            &&& has_infix(s, full + a)
            &&& has_infix(s, full + b)
            &&& has_infix(s, full + c)
            &&& has_infix(s, full + d)
        }),
{
    let n1 = open + full + a;
    let n2 = n1 + sep + full + b;
    let n3 = n2 + sep + full + c;
    let n4 = n3 + sep + full + d;
    let s = n4 + quote;
    lemma_infix_halves(n4, quote);
    lemma_infix_halves(n3 + sep, full + d);
    assert(n4 =~= (n3 + sep) + (full + d));
    lemma_infix_trans(s, n4, full + d);
    lemma_infix_halves(n3, sep + full + d);
    assert(n4 =~= n3 + (sep + full + d));
    lemma_infix_trans(s, n4, n3);
    lemma_infix_halves(n2 + sep, full + c);
    assert(n3 =~= (n2 + sep) + (full + c));
    lemma_infix_trans(s, n3, full + c);
    lemma_infix_halves(n2, sep + full + c);
    assert(n3 =~= n2 + (sep + full + c));
    lemma_infix_trans(s, n3, n2);
    lemma_infix_halves(n1 + sep, full + b);
    assert(n2 =~= (n1 + sep) + (full + b));
    lemma_infix_trans(s, n2, full + b);
    lemma_infix_halves(n1, sep + full + b);
    assert(n2 =~= n1 + (sep + full + b));
    lemma_infix_trans(s, n2, n1);
    lemma_infix_halves(open, full + a);
    assert(n1 =~= open + (full + a));
    lemma_infix_trans(s, n1, full + a);
}

/// Two outcomes written one after the other; `None` if either is `None`.
pub open spec fn one_after_other(a: Option<Seq<char>>, b: Option<Seq<char>>) -> Option<Seq<char>> {
    match (a, b) {
        (Some(x), Some(y)) => Some(x + y),
        _ => None,
    }
}

proof fn lemma_one_after_other_assoc(
    a: Option<Seq<char>>,
    b: Option<Seq<char>>,
    c: Option<Seq<char>>,
)
    ensures
        one_after_other(one_after_other(a, b), c) == one_after_other(a, one_after_other(b, c)),
{
    if a is Some && b is Some && c is Some {
        assert(a->0 + b->0 + c->0 =~= a->0 + (b->0 + c->0));
    }
}

/// Every aspect-ratio group counts, wherever it stands in the list: the
/// thumbnails of a list made of two lists are those of the first followed by
/// those of the second, for all lists.
pub proof fn lemma_groups_concat(
    first: Seq<Seq<char>>,
    second: Seq<Seq<char>>,
    url: Seq<char>,
    file_name: Seq<char>,
    description: Seq<char>,
)
    ensures
        ratio_groups_text(first + second, url, file_name, description) == one_after_other(
            ratio_groups_text(first, url, file_name, description),
            ratio_groups_text(second, url, file_name, description),
        ),
    decreases second.len(),
{
    let a = ratio_groups_text(first, url, file_name, description);
    if second.len() == 0 {
        assert(first + second =~= first);
        if a is Some {
            assert(a->0 + Seq::<char>::empty() =~= a->0);
        }
    } else {
        let init = second.drop_last();
        lemma_groups_concat(first, init, url, file_name, description);
        assert((first + second).drop_last() =~= first + init);
        assert((first + second).last() == second.last());
        lemma_one_after_other_assoc(
            a,
            ratio_groups_text(init, url, file_name, description),
            ratio_group_text(second.last(), url, file_name, description),
        );
    }
}

/// A list of one aspect-ratio group has exactly that group's thumbnails.
pub proof fn lemma_groups_single(
    group: Seq<char>,
    url: Seq<char>,
    file_name: Seq<char>,
    description: Seq<char>,
)
    ensures
        ratio_groups_text(seq![group], url, file_name, description) == ratio_group_text(
            group,
            url,
            file_name,
            description,
        ),
{
    let gs = seq![group];
    assert(gs.drop_last() =~= Seq::<Seq<char>>::empty());
    assert(gs.last() == group);
    assert(ratio_groups_text(gs.drop_last(), url, file_name, description) == Some(
        Seq::<char>::empty(),
    ));
    let r = ratio_group_text(group, url, file_name, description);
    if r is Some {
        assert(Seq::<char>::empty() + r->0 =~= r->0);
    }
}

/// Every resolution entry counts, wherever it stands in its group: the
/// thumbnails of a resolution list made of two lists are those of the first
/// followed by those of the second, for all lists.
pub proof fn lemma_resolutions_concat(
    first: Seq<Seq<char>>,
    second: Seq<Seq<char>>,
    aw: Seq<char>,
    ah: Seq<char>,
    url: Seq<char>,
    file_name: Seq<char>,
    description: Seq<char>,
)
    ensures
        resolutions_text(first + second, aw, ah, url, file_name, description) == one_after_other(
            resolutions_text(first, aw, ah, url, file_name, description),
            resolutions_text(second, aw, ah, url, file_name, description),
        ),
    decreases second.len(),
{
    let a = resolutions_text(first, aw, ah, url, file_name, description);
    if second.len() == 0 {
        assert(first + second =~= first);
        if a is Some {
            assert(a->0 + Seq::<char>::empty() =~= a->0);
        }
    } else {
        let init = second.drop_last();
        lemma_resolutions_concat(first, init, aw, ah, url, file_name, description);
        assert((first + second).drop_last() =~= first + init);
        assert((first + second).last() == second.last());
        lemma_one_after_other_assoc(
            a,
            resolutions_text(init, aw, ah, url, file_name, description),
            resolution_div_text(second.last(), aw, ah, url, file_name, description),
        );
    }
}

/// A resolution list of one entry has exactly one thumbnail block: the one
/// for that entry's width and height, in the group's ratio.
pub proof fn lemma_resolutions_single(
    resolution: Seq<char>,
    aw: Seq<char>,
    ah: Seq<char>,
    url: Seq<char>,
    file_name: Seq<char>,
    description: Seq<char>,
)
    ensures
        resolutions_text(seq![resolution], aw, ah, url, file_name, description)
            == resolution_div_text(resolution, aw, ah, url, file_name, description),
{
    let rs = seq![resolution];
    assert(rs.drop_last() =~= Seq::<Seq<char>>::empty());
    assert(rs.last() == resolution);
    assert(resolutions_text(rs.drop_last(), aw, ah, url, file_name, description) == Some(
        Seq::<char>::empty(),
    ));
    let r = resolution_div_text(resolution, aw, ah, url, file_name, description);
    if r is Some {
        assert(Seq::<char>::empty() + r->0 =~= r->0);
    }
}

/// Every call with a non-empty array of strings is accepted, and hands back
/// exactly those strings in order: the first is the API key.
pub proof fn lemma_string_arrays_accepted(values: Vec<RpcValue>)
    requires
        values@.len() >= 1,
        forall|i: int| 0 <= i < values@.len() ==> (#[trigger] values@[i]) is Str,
    ensures
        arguments_outcome(RpcParams::Array(values)) is Ok,
        arguments_outcome(RpcParams::Array(values))->Ok_0.len() == values@.len(),
        forall|i: int|
            0 <= i < values@.len() ==> arguments_outcome(RpcParams::Array(values))->Ok_0[i]
                == (#[trigger] values@[i])->Str_0@,
{
}

/// The API key is missing only for an empty array.
pub proof fn lemma_missing_key_only_for_empty(p: RpcParams)
    ensures
        (arguments_outcome(p) == Err::<Seq<Seq<char>>, ArgsError>(ArgsError::MissingApiKey)) <==> (
        p is Array && p->Array_0@.len() == 0),
{
}

/// Parameters that are not an array are refused as such, and only they.
pub proof fn lemma_not_an_array(p: RpcParams)
    ensures
        (arguments_outcome(p) == Err::<Seq<Seq<char>>, ArgsError>(ArgsError::NotAnArray)) <==> !(
        p is Array),
{
}

/// An array is refused for holding a non-string exactly when one of its
/// values is not a string.
pub proof fn lemma_not_a_string(values: Vec<RpcValue>)
    ensures
        (arguments_outcome(RpcParams::Array(values)) == Err::<Seq<Seq<char>>, ArgsError>(
            ArgsError::NotAString,
        )) <==> exists|i: int| 0 <= i < values@.len() && !((#[trigger] values@[i]) is Str),
{
}

/// What `div_creator` writes is the markup for the path of its base URL, so
/// it too carries the picture's size as given and ends with the thumbnails
/// of the aspect-ratio list.
pub proof fn lemma_div_creator_fields(props_text: Seq<char>, width: Seq<char>, height: Seq<char>)
    requires
        div_creator_text(props_text, width, height) is Some,
    ensures
        ({
            let m = div_creator_text(props_text, width, height)->0;
            let props = split_on(props_text, '|');
            let thumbnails = ratio_groups_text(
                split_terminated(props[6], ';'),
                schema_url(props[0]),
                props[1],
                props[2],
            );
            &&& parsed_url_path(schema_url(props[0])) is Some
            &&& schema_markup(
                props_text,
                parsed_url_path(schema_url(props[0]))->0,
                width,
                height,
            ) == Some(m)
            &&& has_infix(m, size_lines(width, height))
            &&& thumbnails is Some
            &&& ends_with(m, "\n"@ + thumbnails->0 + "\n"@ + "</div>"@)
        }),
{
    let props = split_on(props_text, '|');
    let path = parsed_url_path(schema_url(props[0]))->0;
    lemma_markup_fields(props_text, path, width, height);
}

/// Joining two texts by a character that neither holds gives a text without
/// any character that neither holds nor is the joining one.
proof fn lemma_join_lacks(a: Seq<char>, c: char, b: Seq<char>, other: char)
    requires
        !a.contains(other),
        !b.contains(other),
        c != other,
    ensures
        !(a + seq![c] + b).contains(other),
{
    let s = a + seq![c] + b;
    if s.contains(other) {
        let j = choose|j: int| 0 <= j < s.len() && s[j] == other;
        if j < a.len() {
            assert(a[j] == other);
        } else if j > a.len() {
            assert(b[j - a.len() - 1] == other);
        }
    }
}

/// A resolution entry `w` `x` `h` is read as width `w` and height `h`, in the
/// group's ratio `aw`:`ah`: its block is the thumbnail for those four numbers,
/// and there is none where one of them is not an `i32`.
pub proof fn lemma_resolution_reads_size(
    w: Seq<char>,
    h: Seq<char>,
    aw: Seq<char>,
    ah: Seq<char>,
    url: Seq<char>,
    file_name: Seq<char>,
    description: Seq<char>,
)
    requires
        !w.contains('x'),
        !h.contains('x'),
        h.len() > 0,
    ensures
        resolution_div_text(w + seq!['x'] + h, aw, ah, url, file_name, description) == match (
            i32_from_text(aw),
            i32_from_text(ah),
            i32_from_text(w),
            i32_from_text(h),
        ) {
            (Some(a), Some(b), Some(c), Some(e)) => Some(
                thumbnail_div_text(a, b, c, e, url, file_name, description),
            ),
            _ => None,
        },
{
    lemma_split_concat(w, h, 'x');
    lemma_split_without_separator(w, 'x');
    lemma_split_without_separator(h, 'x');
    let pieces = split_on(w + seq!['x'] + h, 'x');
    assert(pieces =~= seq![w, h]);
    assert(split_terminated(w + seq!['x'] + h, 'x') =~= seq![w, h]);
}

/// An aspect-ratio group `aw` `:` `ah` `_` `list` is read as the ratio
/// `aw`:`ah` and the resolution list `list`: its thumbnails are those of the
/// list's `,`-separated entries in that ratio.
pub proof fn lemma_group_reads_ratio_and_list(
    aw: Seq<char>,
    ah: Seq<char>,
    list: Seq<char>,
    url: Seq<char>,
    file_name: Seq<char>,
    description: Seq<char>,
)
    requires
        !aw.contains(':'),
        !aw.contains('_'),
        !ah.contains(':'),
        !ah.contains('_'),
        ah.len() > 0,
        !list.contains('_'),
        list.len() > 0,
    ensures
        ratio_group_text(aw + seq![':'] + ah + seq!['_'] + list, url, file_name, description)
            == resolutions_text(
            split_terminated(list, ','),
            aw,
            ah,
            url,
            file_name,
            description,
        ),
{
    let ratio = aw + seq![':'] + ah;
    let group = ratio + seq!['_'] + list;
    lemma_join_lacks(aw, ':', ah, '_');
    lemma_split_concat(ratio, list, '_');
    lemma_split_without_separator(ratio, '_');
    lemma_split_without_separator(list, '_');
    assert(split_on(group, '_') =~= seq![ratio, list]);
    assert(split_terminated(group, '_') =~= seq![ratio, list]);
    lemma_split_concat(aw, ah, ':');
    lemma_split_without_separator(aw, ':');
    lemma_split_without_separator(ah, ':');
    assert(split_on(ratio, ':') =~= seq![aw, ah]);
    assert(split_terminated(ratio, ':') =~= seq![aw, ah]);
}

/// The thumbnails' base URL is the first settings field with its trailing
/// slashes dropped, when that field is at least 9 bytes long in UTF-8: a
/// prefix of the field that does not end with `/`, followed in the field by
/// slashes only. A shorter field gives the default upload URL.
pub proof fn lemma_base_url(first_field: Seq<char>)
    ensures
        vstd::utf8::encode_utf8(first_field).len() >= 9 ==> {
            let url = schema_url(first_field);
            &&& url.len() <= first_field.len()
            &&& url == first_field.take(url.len() as int)
            &&& (url.len() == 0 || url.last() != '/')
            &&& forall|i: int| url.len() <= i < first_field.len() ==> #[trigger] first_field[i] == '/'
        },
        vstd::utf8::encode_utf8(first_field).len() < 9 ==> schema_url(first_field)
            == "https://test.domain/upload/images"@,
{
    lemma_trim_end_char(first_field, '/');
}

} // verus!
