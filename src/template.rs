//! HTML pages: a full document around a title and a body fragment, and unordered lists.
use vstd::prelude::*;

verus! {

/// What precedes the title in a page.
pub const PAGE_HEAD: &'static str = r#"
    <html>
    <head>
        <title>"#;

/// What stands between the title and the body in a page: the rest of the head, with styles.
pub const PAGE_MIDDLE: &'static str = r#"</title>
        <meta charset="utf-8">
        <style>
        body {
            margin: 20px;
            font-family: system-ui;
        }
        h1 {
            text-align: center;
            width: 100%;
        }
        h2 {
            display: flex;
            align-items: center;
            gap: 10px;
            font-size: 18px;
        }
        h2 a {
            margin-right: 10px;
        }
        button {
            font-weight: bold;
            font-size: 24px;
            padding: 8px 12px;
            border: none;
            border-radius: 4px;
            cursor: pointer;
            transition: scale 0.15s;
            box-shadow: 0 2px 4px rgba(0, 0, 0, 0.1);
        }
        button:hover {
            scale: 1.05;;
        }
        button:active {
            scale: 0.8;
        }
        code {
            background-color: #f5f5f5;
            padding: 5px 10px;
            border-radius: 4px;
            font-family: "Courier New", monospace;
        }
        ul {
            list-style-type: none;
            padding: 0;
            margin: 0;
            display: flex;
            flex-wrap: wrap;
            gap: 20px;
        }
        li {
            display: flex;
            flex-direction: column;
            align-items: center;
            padding: 20px;
            width: 150px;
            height: 150px;
            border: 1px solid #ddd;
            border-radius: 8px;
            box-shadow: 0 2px 4px rgba(0, 0, 0, 0.1);
            transition: transform 0.2s;
            justify-content: center;
        }
        li:hover {
            transform: scale(1.05);
        }
        a {
            text-decoration: none;
            color: #333;
            display: flex;
            flex-direction: column;
            align-items: center;
        }
        span:first-child {
            margin-bottom: 10px;
            font-size: 36px;
        }
        span:last-child {
            font-size: 16px;
            font-weight: 500;
            color: #333;
            text-align: center;
            word-wrap: break-word;
        }
        </style>
    </head>
    <body>
        "#;

/// What follows the body in a page.
pub const PAGE_TAIL: &'static str = r#"
    </body>
    </html>"#;

/// The page with the given title and body fragment.
pub open spec fn page(title: Seq<char>, body: Seq<char>) -> Seq<char> {
    PAGE_HEAD@ + title + PAGE_MIDDLE@ + body + PAGE_TAIL@
}

/// The pieces written one after another.
pub open spec fn concat_all(items: Seq<Seq<char>>) -> Seq<char>
    decreases items.len(),
{
    if items.len() == 0 {
        Seq::empty()
    } else {
        concat_all(items.drop_last()) + items.last()
    }
}

/// The character sequences of a list of strings.
pub open spec fn strings_view(v: Seq<String>) -> Seq<Seq<char>> {
    v.map_values(|s: String| s@)
}

/// The unordered list whose items are the given fragments.
pub open spec fn unordered_list(items: Seq<Seq<char>>) -> Seq<char> {
    "<ul>"@ + concat_all(items) + "</ul>"@
}

/// Builds the page with the given title and body fragment.
pub fn generate_html(title: String, body: String) -> (r: String)
    ensures
        r@ == page(title@, body@),
{
    let mut r = String::from_str(PAGE_HEAD);
    r.append(title.as_str());
    r.append(PAGE_MIDDLE);
    r.append(body.as_str());
    r.append(PAGE_TAIL);
    r
}

/// Builds an unordered list from the given fragments, in order.
pub fn generate_ul(items: &Vec<String>) -> (r: String)
    ensures
        r@ == unordered_list(strings_view(items@)),
{
    let mut li = String::new();
    let mut i: usize = 0;
    while i < items.len()
        invariant
            i <= items.len(),
            li@ == concat_all(strings_view(items@).subrange(0, i as int)),
        decreases items.len() - i,
    {
        li.append(items[i].as_str());
        i += 1;
        assert(strings_view(items@).subrange(0, i as int).drop_last() =~= strings_view(
            items@,
        ).subrange(0, i - 1));
    }
    assert(strings_view(items@).subrange(0, items.len() as int) =~= strings_view(items@));
    let mut r = String::from_str("<ul>");
    r.append(li.as_str());
    r.append("</ul>");
    r
}

} // verus!
