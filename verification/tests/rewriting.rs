use html_rewriter::{ContentType, Element, Rewriter, RewritingError, TagNameError};

fn run_with<F: FnMut(&mut Element)>(input: &[u8], chunk: usize, mut f: F) -> Vec<u8> {
    let mut rw = Rewriter::new(encoding_rs::UTF_8, 0x1000_0000);
    let mut i = 0;
    while i < input.len() {
        let end = (i + chunk).min(input.len());
        let mut pending = rw.feed(&input[i..end]).expect("feed failed");
        while let Some(mut el) = pending {
            f(&mut el);
            pending = rw.resume(el);
        }
        i = end;
    }
    let mut pending = rw.finish();
    while let Some(mut el) = pending {
        f(&mut el);
        pending = rw.resume(el);
    }
    rw.into_output()
}

fn run(input: &[u8], chunk: usize) -> Vec<u8> {
    run_with(input, chunk, |_| {})
}

#[test]
fn identity_simple_document() {
    let doc = b"<!DOCTYPE html><html><head><title>t</title></head>\
                <body>hello <b class=\"x\">world</b><br><!-- note --></body></html>";
    assert_eq!(run(doc, doc.len().max(1)), doc.to_vec());
}

#[test]
fn identity_messy_document() {
    let doc = b"a < b text<div a=1 b='2' c=\"3\" d>x</div><img src=a.png/>\
                <![CDATA[raw <stuff> ]]><!bogus><?pi?></close attr=1>tail";
    assert_eq!(run(doc, doc.len().max(1)), doc.to_vec());
}

#[test]
fn chunk_boundary_independence_identity() {
    let doc: &[u8] = b"<!DOCTYPE html>text<div id=\"long attribute value\">body \
                       <!-- comment --><![CDATA[x]]></div><em>e</em>";
    let whole = run(doc, doc.len());
    for chunk in [1usize, 2, 3, 5, 7, 11] {
        assert_eq!(run(doc, chunk), whole);
    }
}

#[test]
fn chunk_boundary_independence_with_mutation() {
    let doc: &[u8] = b"<div id=\"x\">hi</div><p>more</p>";
    let expected = run_with(doc, doc.len(), |el| {
        if el.tag_name() == "div" {
            el.set_tag_name("span").unwrap();
        }
    });
    for chunk in [1usize, 2, 3, 4] {
        let out = run_with(doc, chunk, |el| {
            if el.tag_name() == "div" {
                el.set_tag_name("span").unwrap();
            }
        });
        assert_eq!(out, expected);
    }
}

#[test]
fn rename_propagation() {
    let out = run_with(b"<div id=\"x\">hi</div>", 1024, |el| {
        el.set_tag_name("span").unwrap();
    });
    assert_eq!(out, b"<span id=\"x\">hi</span>".to_vec());
}

#[test]
fn void_element_append_is_noop() {
    let out = run_with(b"<img src=\"a.png\">", 1024, |el| {
        el.append("x", ContentType::Text);
    });
    assert_eq!(out, b"<img src=\"a.png\">".to_vec());
}

#[test]
fn removal_with_content_kept() {
    let out = run_with(b"<b>kept</b>", 1024, |el| {
        el.remove_and_keep_content();
    });
    assert_eq!(out, b"kept".to_vec());
}

#[test]
fn full_removal() {
    let out = run_with(b"<b>gone</b>", 1024, |el| {
        el.remove();
    });
    assert_eq!(out, b"".to_vec());
}

#[test]
fn insertion_ordering() {
    let out = run_with(b"<p>X</p>", 1024, |el| {
        el.before("A", ContentType::Html);
        el.after("B", ContentType::Html);
        el.append("C", ContentType::Html);
        el.after("D", ContentType::Html);
    });
    assert_eq!(out, b"A<p>XC</p>BD".to_vec());
}

#[test]
fn prepend_and_set_inner_content() {
    let out = run_with(b"<p>old</p>", 1024, |el| {
        el.prepend("first", ContentType::Html);
    });
    assert_eq!(out, b"<p>firstold</p>".to_vec());

    let out = run_with(b"<p>old</p>", 1024, |el| {
        el.set_inner_content("new", ContentType::Html);
    });
    assert_eq!(out, b"<p>new</p>".to_vec());
}

#[test]
fn replace_element() {
    let out = run_with(b"a<b>gone</b>z", 1024, |el| {
        el.replace("R", ContentType::Html);
    });
    assert_eq!(out, b"aRz".to_vec());
}

#[test]
fn tag_name_validation() {
    run_with(b"<p></p>", 1024, |el| {
        assert_eq!(el.set_tag_name(""), Err(TagNameError::Empty));
        assert_eq!(el.set_tag_name("1x"), Err(TagNameError::InvalidFirstCharacter));
        assert_eq!(el.set_tag_name("a b"), Err(TagNameError::ForbiddenCharacter(' ')));
        assert_eq!(el.set_tag_name("a>"), Err(TagNameError::ForbiddenCharacter('>')));
        assert_eq!(el.set_tag_name("a/b"), Err(TagNameError::ForbiddenCharacter('/')));
    });
}

#[test]
fn unencodable_tag_name() {
    let mut rw = Rewriter::new(encoding_rs::WINDOWS_1252, 1024);
    let mut pending = rw.feed(b"<p>x</p>").unwrap();
    let mut seen = 0;
    while let Some(mut el) = pending {
        seen += 1;
        assert_eq!(el.set_tag_name("\u{4e9c}x"), Err(TagNameError::InvalidFirstCharacter));
        assert_eq!(el.set_tag_name("x\u{4e9c}"), Err(TagNameError::UnencodableCharacter));
        pending = rw.resume(el);
    }
    assert_eq!(seen, 1);
}

#[test]
fn single_invocation_per_element() {
    let out = run_with(b"<b>1</b><b>2</b>", 1024, |el| {
        el.append("X", ContentType::Html);
    });
    assert_eq!(out, b"<b>1X</b><b>2X</b>".to_vec());
}

#[test]
fn capacity_bound() {
    let mut rw = Rewriter::new(encoding_rs::UTF_8, 16);
    let mut doc = b"<div ".to_vec();
    doc.extend(std::iter::repeat(b'a').take(100));
    let r = rw.feed(&doc);
    assert_eq!(r.err(), Some(RewritingError::CapacityExceeded));
}

#[test]
fn capacity_ignores_plain_text() {
    let mut rw = Rewriter::new(encoding_rs::UTF_8, 16);
    let text = vec![b'x'; 1000];
    assert!(rw.feed(&text).is_ok());
    assert!(rw.finish().is_none());
    assert_eq!(rw.into_output(), text);
}

#[test]
fn attribute_access() {
    run_with(b"<a href=\"u\" CLASS='c' flag>x</a>", 1024, |el| {
        assert_eq!(el.get_attribute("href"), Some("u".to_string()));
        assert_eq!(el.get_attribute("class"), Some("c".to_string()));
        assert_eq!(el.get_attribute("FLAG"), Some("".to_string()));
        assert_eq!(el.get_attribute("missing"), None);
        assert!(el.has_attribute("Href"));
        assert!(!el.has_attribute("nope"));
        assert_eq!(el.tag_name(), "a");
    });
}

#[test]
fn set_and_remove_attribute() {
    let out = run_with(b"<a href=\"u\">x</a>", 1024, |el| {
        el.set_attribute("href", "v").unwrap();
        el.set_attribute("id", "n").unwrap();
    });
    assert_eq!(out, b"<a href=\"v\" id=\"n\">x</a>".to_vec());

    let out = run_with(b"<a href=\"u\" id=\"n\">x</a>", 1024, |el| {
        el.remove_attribute("href");
    });
    assert_eq!(out, b"<a id=\"n\">x</a>".to_vec());
}

#[test]
fn attribute_name_validation() {
    run_with(b"<p></p>", 1024, |el| {
        assert!(el.set_attribute("", "v").is_err());
        assert!(el.set_attribute("a=b", "v").is_err());
        assert!(el.set_attribute("ok", "v").is_ok());
    });
}

#[test]
fn text_content_is_escaped() {
    let out = run_with(b"<p>x</p>", 1024, |el| {
        el.before("a<b&c>", ContentType::Text);
    });
    assert_eq!(out, b"a&lt;b&amp;c&gt;<p>x</p>".to_vec());
}

#[test]
fn removed_flag_reports_prior_decision() {
    run_with(b"<p>x</p>", 1024, |el| {
        assert!(!el.removed());
        el.remove_and_keep_content();
        assert!(el.removed());
    });
}

#[test]
fn nested_removal() {
    let out = run_with(b"<div>a<span>b</span>c</div><p>d</p>", 1024, |el| {
        if el.tag_name() == "div" {
            el.remove();
        }
    });
    assert_eq!(out, b"<p>d</p>".to_vec());
}

#[test]
fn unmatched_end_tag_passes_through() {
    let doc = b"x</b>y";
    assert_eq!(run(doc, 1), doc.to_vec());
}

#[test]
fn self_closing_treated_as_contentless() {
    let out = run_with(b"<div/>t", 1024, |el| {
        el.append("N", ContentType::Html);
        el.after("A", ContentType::Html);
    });
    assert_eq!(out, b"<div/>At".to_vec());
}
