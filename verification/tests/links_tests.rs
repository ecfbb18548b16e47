use alexo_io::links::{
    contact_email, contact_link_class, email_address, hero_link_text, inline_links,
    is_email_link, is_masthead_link, link_href, project_primary_link, ContactLink, Part,
};

fn render(parts: &[Part]) -> String {
    let mut out = String::new();
    for p in parts {
        match p {
            Part::Text(t) => out.push_str(t),
            Part::Link(label, href) => {
                out.push('[');
                out.push_str(label);
                out.push_str("](");
                out.push_str(href);
                out.push(')');
            }
        }
    }
    out
}

#[test]
fn description_with_a_link() {
    let parts = inline_links("served by [servio](https://github.com/alexylon/servio)");
    assert_eq!(
        parts,
        vec![
            Part::Text("served by "),
            Part::Link("servio", "https://github.com/alexylon/servio"),
        ]
    );
}

#[test]
fn plain_text_stays_text() {
    assert_eq!(inline_links("just words"), vec![Part::Text("just words")]);
    assert_eq!(inline_links(""), Vec::<Part>::new());
}

#[test]
fn link_only_and_trailing_text() {
    assert_eq!(inline_links("[a](b)"), vec![Part::Link("a", "b")]);
    assert_eq!(
        inline_links("[a](b) and more"),
        vec![Part::Link("a", "b"), Part::Text(" and more")]
    );
}

#[test]
fn two_links() {
    assert_eq!(
        inline_links("x [a](b) y [c](d)"),
        vec![
            Part::Text("x "),
            Part::Link("a", "b"),
            Part::Text(" y "),
            Part::Link("c", "d"),
        ]
    );
}

#[test]
fn incomplete_links_stay_text() {
    assert_eq!(inline_links("a [b"), vec![Part::Text("a [b")]);
    assert_eq!(inline_links("a [b](c"), vec![Part::Text("a [b](c")]);
    assert_eq!(inline_links("a [b] (c)"), vec![Part::Text("a [b] (c)")]);
    assert_eq!(
        inline_links("[a](b) then [c"),
        vec![Part::Link("a", "b"), Part::Text(" then [c")]
    );
}

#[test]
fn first_brackets_decide() {
    assert_eq!(inline_links("[a [b](c)"), vec![Part::Text("[a "), Part::Link("b", "c")]);
    assert_eq!(inline_links("[a](b(c))"), vec![Part::Link("a", "b(c"), Part::Text(")")]);
}

#[test]
fn stray_bracket_before_a_link_stays_text() {
    assert_eq!(
        inline_links("[a] and [b](c)"),
        vec![Part::Text("[a] and "), Part::Link("b", "c")]
    );
    assert_eq!(
        inline_links("x [[y](z)"),
        vec![Part::Text("x ["), Part::Link("y", "z")]
    );
    assert_eq!(inline_links("see ](x) [a](b)"), vec![Part::Text("see ](x) "), Part::Link("a", "b")]);
}

#[test]
fn labels_hold_no_open_bracket() {
    for s in ["[a] and [b](c)", "[[[x](y)", "a [b [c [d](e) f", "[x](y)[z](w)"] {
        for p in inline_links(s) {
            if let Part::Link(label, href) = p {
                assert!(!label.contains('['));
                assert!(!href.contains(')'));
            }
        }
    }
}

#[test]
fn multibyte_text() {
    assert_eq!(
        inline_links("é [ü](ß) ✓"),
        vec![Part::Text("é "), Part::Link("ü", "ß"), Part::Text(" ✓")]
    );
}

#[test]
fn parts_reassemble_to_the_description() {
    for s in [
        "served by [servio](https://github.com/alexylon/servio)",
        "a [b",
        "[a [b](c)",
        "[a](b(c))",
        "x [a](b) y [c](d) z",
        "é [ü](ß) ✓ [",
        "",
        "[]()",
        "[a] and [b](c)",
        "a [b [c [d](e) f",
    ] {
        let parts = inline_links(s);
        assert_eq!(render(&parts), s);
        for p in &parts {
            if let Part::Text(t) = p {
                assert!(!t.is_empty());
            }
        }
        for w in parts.windows(2) {
            assert!(!(matches!(w[0], Part::Text(_)) && matches!(w[1], Part::Text(_))));
        }
    }
}

fn link(label: &'static str, href: &'static str, download: Option<&'static str>) -> ContactLink<'static> {
    ContactLink { label, href, target: None, rel: None, download }
}

#[test]
fn resume_link_points_to_the_document() {
    let resume = link("Resume", "/resume", Some("Resume.pdf"));
    let github = link("GitHub", "https://github.com/alexylon", None);
    assert_eq!(link_href(&resume, "/assets/resume.pdf"), "/assets/resume.pdf");
    assert_eq!(link_href(&github, "/assets/resume.pdf"), "https://github.com/alexylon");
    assert_eq!(contact_link_class(&resume), "contact-resume");
    assert_eq!(contact_link_class(&github), "contact-link");
}

#[test]
fn email_links() {
    assert!(is_email_link("mailto:me@alexo.io"));
    assert!(!is_email_link("https://alexo.io"));
    assert_eq!(email_address("mailto:me@alexo.io"), "me@alexo.io");
    assert_eq!(email_address("me@alexo.io"), "me@alexo.io");
    let email = link("Email", "mailto:me@alexo.io", None);
    assert_eq!(hero_link_text(&email), ("me@alexo.io", "hero-link hero-link-email"));
    let github = link("GitHub", "https://github.com/alexylon", None);
    assert_eq!(hero_link_text(&github), ("GitHub", "hero-link"));
}

#[test]
fn first_email_link_is_found() {
    let links = [
        link("GitHub", "https://github.com/alexylon", None),
        link("Email", "mailto:a@b.c", None),
        link("Other mail", "mailto:x@y.z", None),
    ];
    let found = contact_email(&links).unwrap();
    assert_eq!(found.href, "mailto:a@b.c");
    assert!(contact_email(&links[..1]).is_none());
    assert!(contact_email(&[]).is_none());
}

#[test]
fn masthead_links_by_label_prefix() {
    assert!(is_masthead_link(&link("Email", "mailto:a@b.c", None)));
    assert!(is_masthead_link(&link("GitHub", "g", None)));
    assert!(is_masthead_link(&link("LinkedIn", "l", None)));
    assert!(is_masthead_link(&link("Mastodon", "m", None)));
    assert!(is_masthead_link(&link("Resume (PDF)", "r", Some("r.pdf"))));
    assert!(!is_masthead_link(&link("Telegram", "t", None)));
    assert!(!is_masthead_link(&link("Git", "t", None)));
    assert!(!is_masthead_link(&link("", "t", None)));
}

#[test]
fn project_name_links_to_homepage_first() {
    assert_eq!(project_primary_link(Some("https://clavir.io"), "https://github.com/x"), "https://clavir.io");
    assert_eq!(project_primary_link(None, "https://github.com/x"), "https://github.com/x");
}
