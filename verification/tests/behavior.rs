use web_archive::base64::base64_encode;
use web_archive::fetch::build_resource_map;
use web_archive::fetch::store_response;
use web_archive::fetch::FetchResponse;
use web_archive::parse_resource_urls;
use web_archive::ImageResource;
use web_archive::Locator;
use web_archive::PageArchive;
use web_archive::Resource;
use web_archive::ResourceMap;
use web_archive::ResourceUrl;

fn base() -> Locator {
    Locator::parse("http://example.com").unwrap()
}

#[test]
fn test_base64_exact_values() {
    assert_eq!(base64_encode(&Vec::new()), "");
    assert_eq!(base64_encode(&b"f".to_vec()), "Zg==");
    assert_eq!(base64_encode(&b"fo".to_vec()), "Zm8=");
    assert_eq!(base64_encode(&b"foo".to_vec()), "Zm9v");
    assert_eq!(base64_encode(&b"foobar".to_vec()), "Zm9vYmFy");
    assert_eq!(base64_encode(&vec![0xff, 0xfe, 0xfd, 0xfc]), "//79/A==");
}

#[test]
fn test_data_uri_exact_value() {
    let img = ImageResource {
        data: vec![1, 2, 3],
        mimetype: "image/png".to_string(),
    };
    assert_eq!(img.to_data_uri(), "data:image/png;base64,AQID");
}

#[test]
fn test_locator_normalizes() {
    // The address is parsed, not handed back: the serialized form
    // gains the root path.
    let l = Locator::parse("http://example.com").unwrap();
    assert_eq!(l.as_str(), "http://example.com/");
}

#[test]
fn test_join_failure_is_parse_error() {
    let l = base();
    let res = l.join("http://[broken");
    assert!(matches!(res, Err(web_archive::Error::ParseError(_))));
}

#[test]
fn test_discovery_order_matches_document_order() {
    let html = r#"
        <html>
            <body>
                <img src="a" />
                <link rel="stylesheet" href="b" />
                <script src="c"></script>
            </body>
        </html>
        "#;

    let resource_urls = parse_resource_urls(&base(), html).unwrap();
    assert_eq!(
        resource_urls,
        vec![
            ResourceUrl::Image(Locator::parse("http://example.com/a").unwrap()),
            ResourceUrl::Css(Locator::parse("http://example.com/b").unwrap()),
            ResourceUrl::Javascript(Locator::parse("http://example.com/c").unwrap()),
        ]
    );
}

#[test]
fn test_link_without_rel_contributes_nothing() {
    let html = r#"<html><head>
        <link href="plain.css" />
        <link rel="icon" href="fav.ico" />
        <link rel="stylesheet" />
        </head></html>"#;

    let resource_urls = parse_resource_urls(&base(), html).unwrap();
    assert_eq!(resource_urls.len(), 0);
}

#[test]
fn test_store_skips_non_success() {
    let mut map = ResourceMap::new();
    let target = ResourceUrl::Css(Locator::parse("http://example.com/style.css").unwrap());
    store_response(
        &mut map,
        &target,
        FetchResponse {
            status: 404,
            body: Vec::new(),
            text: "not found".to_string(),
            content_type: String::new(),
        },
    );
    assert!(map.get(target.url()).is_none());
}

#[test]
fn test_store_mimetype_fallback() {
    let mut map = ResourceMap::new();
    let target = ResourceUrl::Image(Locator::parse("http://example.com/i.bin").unwrap());
    store_response(
        &mut map,
        &target,
        FetchResponse {
            status: 200,
            body: vec![7, 8],
            text: String::new(),
            content_type: String::new(),
        },
    );
    match map.get(target.url()) {
        Some(Resource::Image(img)) => {
            assert_eq!(img.mimetype, "application/octet-stream");
            assert_eq!(img.data, vec![7, 8]);
        }
        other => panic!("expected a stored image, got {:?}", other),
    }
}

#[test]
fn test_duplicate_locator_overwrites() {
    let url = Locator::parse("http://example.com/shared").unwrap();
    let urls = vec![
        ResourceUrl::Css(url.duplicate()),
        ResourceUrl::Javascript(url.duplicate()),
    ];
    let responses = vec![
        FetchResponse {
            status: 200,
            body: Vec::new(),
            text: "a { color: red; }".to_string(),
            content_type: "text/css".to_string(),
        },
        FetchResponse {
            status: 200,
            body: Vec::new(),
            text: "alert(1)".to_string(),
            content_type: "text/javascript".to_string(),
        },
    ];
    let map = build_resource_map(&urls, responses);
    match map.get(&url) {
        Some(Resource::Javascript(t)) => assert_eq!(t.as_str(), "alert(1)"),
        other => panic!("expected the later script to win, got {:?}", other),
    }
}

#[test]
fn test_pipeline_with_stub_transport() {
    let html = r#"<html><head><link rel="stylesheet" href="s.css"></head>
        <body><img src="i.png"><script src="j.js"></script></body></html>"#;
    let url = base();

    // Discovery, in document order.
    let urls = parse_resource_urls(&url, html).unwrap();
    let expected_order = vec![
        "http://example.com/s.css",
        "http://example.com/i.png",
        "http://example.com/j.js",
    ];
    let seen: Vec<&str> = urls.iter().map(|u| u.url().as_str()).collect();
    assert_eq!(seen, expected_order);

    // A stub transport answers each request; the image fetch fails.
    let responses: Vec<FetchResponse> = urls
        .iter()
        .map(|u| match u {
            ResourceUrl::Css(_) => FetchResponse {
                status: 200,
                body: Vec::new(),
                text: "b { color: red; }".to_string(),
                content_type: "text/css".to_string(),
            },
            ResourceUrl::Image(_) => FetchResponse {
                status: 500,
                body: Vec::new(),
                text: String::new(),
                content_type: String::new(),
            },
            ResourceUrl::Javascript(_) => FetchResponse {
                status: 200,
                body: Vec::new(),
                text: "go();".to_string(),
                content_type: "text/javascript".to_string(),
            },
        })
        .collect();

    let resource_map = build_resource_map(&urls, responses);
    let archive = PageArchive {
        url,
        content: html.to_string(),
        resource_map,
    };
    let output = archive.embed_resources().unwrap();

    assert!(!output.contains("<link"));
    assert!(output.contains("<style>b { color: red; }</style>"));
    assert!(output.contains("<script>go();</script>"));
    assert!(output.contains(r#"<img src="i.png">"#));
}

#[test]
fn test_image_miss_left_untouched() {
    let archive = PageArchive {
        url: base(),
        content: r#"<html><body><img src="gone.png" /></body></html>"#.to_string(),
        resource_map: ResourceMap::new(),
    };
    let output = archive.embed_resources().unwrap();
    assert!(output.contains(r#"<img src="gone.png">"#));
}

#[test]
fn test_script_miss_still_loses_src() {
    let archive = PageArchive {
        url: base(),
        content: r#"<html><head><script src="gone.js"></script></head></html>"#.to_string(),
        resource_map: ResourceMap::new(),
    };
    let output = archive.embed_resources().unwrap();
    assert!(!output.contains("src"));
    assert!(output.contains("<script></script>"));
}

#[test]
fn test_stylesheet_miss_keeps_link() {
    let archive = PageArchive {
        url: base(),
        content: r#"<html><head><link rel="stylesheet" href="gone.css"></head></html>"#
            .to_string(),
        resource_map: ResourceMap::new(),
    };
    let output = archive.embed_resources().unwrap();
    assert!(output.contains("<link"));
    assert!(output.contains(r#"href="gone.css""#));
    assert!(!output.contains("<style>"));
}
