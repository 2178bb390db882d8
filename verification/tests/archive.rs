use web_archive::parse_resource_urls;
use web_archive::ImageResource;
use web_archive::Locator;
use web_archive::Resource;
use web_archive::ResourceMap;
use web_archive::ResourceUrl;
use web_archive::Error;
use web_archive::PageArchive;

fn base() -> Locator {
    Locator::parse("http://example.com").unwrap()
}

fn stripped(s: &str) -> String {
    s.replace("\t", "").replace("\n", "")
}

#[test]
fn test_image_tags() {
    let html = r#"
        <!DOCTYPE html>
        <html>
            <head></head>
            <body>
                <div id="content">
                    <img src="/images/fun.png" />
                </div>
            </body>
        </html>
        "#;

    let resource_urls = parse_resource_urls(&base(), html).unwrap();

    assert_eq!(resource_urls.len(), 1);
    assert_eq!(
        resource_urls[0],
        ResourceUrl::Image(Locator::parse("http://example.com/images/fun.png").unwrap())
    );
}

#[test]
fn test_css_tags() {
    let html = r#"
        <!DOCTYPE html>
        <html>
            <head>
                <link rel="stylesheet" type="text/css" href="/style.css" />
            </head>
            <body>
                <div id="content">
                </div>
            </body>
        </html>
        "#;

    let resource_urls = parse_resource_urls(&base(), html).unwrap();

    assert_eq!(resource_urls.len(), 1);
    assert_eq!(
        resource_urls[0],
        ResourceUrl::Css(Locator::parse("http://example.com/style.css").unwrap())
    );
}

#[test]
fn test_script_tags() {
    let html = r#"
        <!DOCTYPE html>
        <html>
            <head>
                <script language="javascript" src="/js.js"></script>
            </head>
            <body>
                <div id="content">
                </div>
            </body>
        </html>
        "#;

    let resource_urls = parse_resource_urls(&base(), html).unwrap();

    assert_eq!(resource_urls.len(), 1);
    assert_eq!(
        resource_urls[0],
        ResourceUrl::Javascript(Locator::parse("http://example.com/js.js").unwrap())
    );
}

#[test]
fn test_deep_nesting() {
    let html = r#"
        <html>
            <body>
                <div><div><div><section><p>
                    <img src="deep.png" />
                    <span><script src="deep.js"></script></span>
                </p></section></div></div></div>
            </body>
        </html>
        "#;

    let resource_urls = parse_resource_urls(&base(), html).unwrap();

    assert_eq!(resource_urls.len(), 2);
    assert_eq!(
        resource_urls[0],
        ResourceUrl::Image(Locator::parse("http://example.com/deep.png").unwrap())
    );
    assert_eq!(
        resource_urls[1],
        ResourceUrl::Javascript(Locator::parse("http://example.com/deep.js").unwrap())
    );
}

#[test]
fn test_relative_paths() {
    let page = Locator::parse("http://example.com/dir/page.html").unwrap();

    let relative = page.join("style.css").unwrap();
    assert_eq!(relative.as_str(), "http://example.com/dir/style.css");

    let rooted = page.join("/style.css").unwrap();
    assert_eq!(rooted.as_str(), "http://example.com/style.css");

    let absolute = page.join("http://other.example/a.css").unwrap();
    assert_eq!(absolute.as_str(), "http://other.example/a.css");
}

#[test]
fn test_malformed_html() {
    let html = "<div><<p><img src=deep.png <span></div></p air=\"";

    // A malformed page still parses into some tree; discovery walks
    // whatever came out and does not fail.
    let resource_urls = parse_resource_urls(&base(), html).unwrap();
    for r in &resource_urls {
        assert!(r.url().as_str().starts_with("http://example.com/"));
    }

    let archive = PageArchive {
        url: base(),
        content: html.to_string(),
        resource_map: ResourceMap::new(),
    };
    archive.embed_resources().unwrap();
}

#[test]
fn parse_invalid_url() {
    let u = "this~is~not~a~url";

    let res = Locator::parse(u);
    assert!(res.is_err());

    if let Err(Error::ParseError(_err)) = res {
        // Okay, it's a parse error
    } else {
        panic!("Expected parse error");
    }
}

#[test]
fn test_single_css() {
    let content = "
\t\t<html>
\t\t\t<head>
\t\t\t\t<link rel=\"stylesheet\" href=\"style.css\" />
\t\t\t</head>
\t\t\t<body></body>
\t\t</html>
\t\t"
    .to_string();
    let url = Locator::parse("http://example.com").unwrap();
    let mut resource_map = ResourceMap::new();
    resource_map.insert(
        url.join("style.css").unwrap(),
        Resource::Css("\n\t\t\t\t\tbody { background-color: blue; }\n\t\t\t\t".to_string()),
    );
    let archive = PageArchive {
        url,
        content,
        resource_map,
    };

    let output = archive.embed_resources().unwrap();
    assert_eq!(
        stripped(&output),
        stripped(
            "
\t\t<html>
\t\t\t<head>
\t\t\t\t<style>
\t\t\t\t\tbody { background-color: blue; }
\t\t\t\t</style>
\t\t\t</head>
\t\t\t<body></body>
\t\t</html>
\t\t"
        )
    );
}

#[test]
fn test_single_image() {
    let content = "
\t\t<html>
\t\t\t<head></head>
\t\t\t<body>
\t\t\t\t<img src=\"rustacean.png\" />
\t\t\t</body>
\t\t</html>
\t\t"
    .to_string();
    let url = Locator::parse("http://example.com").unwrap();
    let mut resource_map = ResourceMap::new();
    resource_map.insert(
        url.join("rustacean.png").unwrap(),
        Resource::Image(ImageResource {
            data: vec![0x89, 0x50, 0x4e, 0x47, 0x0d, 0x0a, 0x1a, 0x0a],
            mimetype: "image/png".to_string(),
        }),
    );
    let archive = PageArchive {
        url,
        content,
        resource_map,
    };

    let output = archive.embed_resources().unwrap();
    println!("{}", output);
    // base64 of the image bytes
    assert!(output.contains(r#"<img src="data:image/png;base64,iVBORw0KGgo="#));
}

#[test]
fn test_single_js() {
    let content = "
\t\t<html>
\t\t\t<head>
\t\t\t\t<script src=\"script.js\"></script>
\t\t\t</head>
\t\t\t<body></body>
\t\t</html>
\t\t"
    .to_string();
    let url = Locator::parse("http://example.com").unwrap();
    let mut resource_map = ResourceMap::new();
    resource_map.insert(
        url.join("script.js").unwrap(),
        Resource::Javascript(
            "\n\t\t\t\t\tfunction do_stuff() {\n\t\t\t\t\t\tconsole.log(\"Hello!\");\n\t\t\t\t\t}\n\t\t\t\t"
                .to_string(),
        ),
    );
    let archive = PageArchive {
        url,
        content,
        resource_map,
    };

    let output = archive.embed_resources().unwrap();
    assert_eq!(
        stripped(&output),
        stripped(
            "
\t\t<html><head>
\t\t\t\t<script>
\t\t\t\t\tfunction do_stuff() {
\t\t\t\t\t\tconsole.log(\"Hello!\");
\t\t\t\t\t}
\t\t\t\t</script>
\t\t\t</head>
\t\t\t<body></body>
\t\t</html>
\t\t"
        )
    );
}
