// The project layer: layout resolution, classification, identifiers,
// slugs, configuration extraction and the server registry.

use hugo_bros::assets::is_image_ext;
use hugo_bros::assets::static_url_of;
use hugo_bros::classify::classify_page_deletion;
use hugo_bros::classify::draft_included;
use hugo_bros::classify::extract_title_from_markdown;
use hugo_bros::classify::normalize_id;
use hugo_bros::classify::page_included;
use hugo_bros::classify::post_included;
use hugo_bros::classify::sort_posts_by_modified;
use hugo_bros::classify::PageDeletion;
use hugo_bros::classify::Post;
use hugo_bros::fmconfig::format_label;
use hugo_bros::fmconfig::pick_preview_image_field;
use hugo_bros::fmconfig::FieldStats;
use hugo_bros::fmconfig::generate_frontmatter_config;
use hugo_bros::fmconfig::infer_value_type;
use hugo_bros::hugoconfig::parse_hugo_config;
use hugo_bros::hugoconfig::HugoConfig;
use hugo_bros::layout::HugoProject;
use hugo_bros::layout::ServerRegistry;
use hugo_bros::model::FieldValue;
use hugo_bros::model::MarkdownDocument;
use hugo_bros::model::Scalar;
use hugo_bros::paths::validate_folder_name;
use hugo_bros::paths::validate_relative_path;
use hugo_bros::recent::add_recent_project;
use hugo_bros::slug::sanitize_filename;
use hugo_bros::slug::sanitize_image_filename;
use hugo_bros::slug::transliterate_russian;

#[test]
fn classification_exclusivity_example() {
    let drafts = "content/drafts";
    // content/posts/a.md, draft flag off: a post, not a draft.
    assert!(post_included("content/posts/a.md", drafts, true, false));
    assert!(!draft_included("content/posts/a.md", drafts, true, false));
    // content/drafts/b.md, flag off: a draft by location, never a post.
    assert!(!post_included("content/drafts/b.md", drafts, true, false));
    assert!(draft_included("content/drafts/b.md", drafts, true, false));
    // content/posts/c.md, flag on: a draft by flag, never a post.
    assert!(!post_included("content/posts/c.md", drafts, true, true));
    assert!(draft_included("content/posts/c.md", drafts, true, true));
}

#[test]
fn page_rules() {
    let pages = "content";
    let posts = "content/posts";
    let drafts = "content/drafts";
    // A nested index file is a page.
    assert!(page_included("content/about/index.md", pages, posts, true, drafts, false));
    // A root-level standalone file is a page.
    assert!(page_included("content/about.md", pages, posts, true, drafts, false));
    // A nested non-index file is not.
    assert!(!page_included("content/deep/note.md", pages, posts, true, drafts, false));
    // Files under the posts directory are not pages.
    assert!(!page_included("content/posts/index.md", pages, posts, true, drafts, false));
    // A directory whose name merely begins like the posts directory is no
    // posts directory, but its nested non-index files are still no pages.
    assert!(!page_included("content/postsx/note.md", pages, posts, true, drafts, false));
}

#[test]
fn id_stability_across_separators() {
    assert_eq!(normalize_id("content/posts/a.md"), "content/posts/a.md");
    assert_eq!(normalize_id("content\\posts\\a.md"), "content/posts/a.md");
}

#[test]
fn layout_directories() {
    let p = HugoProject::new("/site".to_string());
    assert_eq!(p.get_content_dir(), "/site/content");
    assert_eq!(p.get_pages_dir(), "/site/content");
    assert_eq!(p.get_static_dir(), "/site/static");
    assert_eq!(p.get_drafts_dir(), "/site/content/drafts");
    assert_eq!(p.get_posts_dir(true, false), "/site/content/posts");
    assert_eq!(p.get_posts_dir(false, true), "/site/content/post");
    assert_eq!(p.get_posts_dir(false, false), "/site/content");
}

#[test]
fn config_candidates_and_first_match() {
    let p = HugoProject::new("/site".to_string());
    let c = p.config_candidates();
    assert_eq!(c.len(), 16);
    assert_eq!(c[0], "/site/hugo.toml");
    assert_eq!(c[4], "/site/config.toml");
    assert_eq!(c[8], "/site/config/_default/hugo.toml");
    let mut exists = vec![false; 16];
    exists[5] = true;
    exists[9] = true;
    let found = p.find_config_path(&exists);
    assert_eq!(found, Some("/site/config.yaml".to_string()));
    let none = p.find_config_path(&vec![false; 16]);
    assert_eq!(none, None);
}

#[test]
fn validation_messages() {
    let p = HugoProject::new("/site".to_string());
    assert_eq!(
        p.validate(false, true),
        Err("Hugo config not found (config.* or hugo.*)".to_string()),
    );
    assert_eq!(p.validate(true, false), Err("content/ directory not found".to_string()));
    assert_eq!(p.validate(true, true), Ok(true));
}

#[test]
fn server_registry_rules() {
    let mut reg = ServerRegistry::new();
    assert!(!reg.is_server_running("/site"));
    assert_eq!(reg.start_server("/site".to_string()), Ok("/site".to_string()));
    assert!(reg.is_server_running("/site"));
    assert_eq!(
        reg.start_server("/site".to_string()),
        Err("Server is already running".to_string()),
    );
    assert_eq!(reg.stop_server("/other"), Err("Server not found".to_string()));
    assert_eq!(reg.stop_server("/site"), Ok(()));
    assert!(!reg.is_server_running("/site"));
}

#[test]
fn slugs_and_transliteration() {
    assert_eq!(sanitize_filename("Hello World!"), "hello-world");
    assert_eq!(sanitize_filename("A--B__C"), "a-b-c");
    assert_eq!(transliterate_russian("Привет"), "Privet");
    assert_eq!(sanitize_filename("Привет мир"), "privet-mir");
    assert_eq!(sanitize_image_filename("my pic.png"), "my-pic.png");
    assert_eq!(sanitize_image_filename("héllo.jpg"), "hllo.jpg");
    assert_eq!(sanitize_image_filename("???.gif"), "image.gif");
}

#[test]
fn image_extensions_and_urls() {
    assert!(is_image_ext("PNG"));
    assert!(is_image_ext("webp"));
    assert!(!is_image_ext("txt"));
    assert_eq!(static_url_of("img\\a.png"), "/img/a.png");
}

#[test]
fn title_extraction_and_backfill() {
    assert_eq!(extract_title_from_markdown("text\n# My Title\nmore"), Some("My Title".to_string()));
    assert_eq!(extract_title_from_markdown("no heading"), None);
    let p = Post::from_parts(
        "# From Heading\nbody",
        "content/posts/a.md".to_string(),
        "/site/content/posts/a.md".to_string(),
        "a",
        5,
        9,
        "2024-05-05",
    );
    assert_eq!(p.title, "From Heading");
    assert_eq!(p.date, "2024-05-05");
    let q = Post::from_parts(
        "plain body",
        "id".to_string(),
        "fp".to_string(),
        "stem-name",
        1,
        2,
        "fb",
    );
    assert_eq!(q.title, "stem-name");
}

#[test]
fn posts_sorted_by_modified_descending() {
    let mk = |id: &str, m: i64| {
        Post::from_parts("x", id.to_string(), id.to_string(), "s", 0, m, "d")
    };
    let sorted = sort_posts_by_modified(vec![mk("a", 5), mk("b", 9), mk("c", 7)]);
    let ids: Vec<String> = sorted.iter().map(|p| p.id.clone()).collect();
    assert_eq!(ids, vec!["b".to_string(), "c".to_string(), "a".to_string()]);
}

#[test]
fn recent_projects_rotation() {
    let mut recent: Vec<String> = (0..10).map(|i| format!("p{}", i)).collect();
    add_recent_project(&mut recent, "p3");
    assert_eq!(recent.len(), 10);
    assert_eq!(recent[0], "p3");
    assert_eq!(recent.iter().filter(|p| p.as_str() == "p3").count(), 1);
    add_recent_project(&mut recent, "new");
    assert_eq!(recent.len(), 10);
    assert_eq!(recent[0], "new");
}

#[test]
fn inferred_field_types() {
    let t = |s: &str| FieldValue::One(Scalar::Text(s.to_string()));
    assert_eq!(infer_value_type(&t("2024-01-01 10:00:00")), Some("datetime".to_string()));
    assert_eq!(infer_value_type(&t("2024-01-02")), Some("date".to_string()));
    assert_eq!(infer_value_type(&t("/images/cover.jpg")), Some("image".to_string()));
    assert_eq!(infer_value_type(&t("a\nb")), Some("text".to_string()));
    assert_eq!(infer_value_type(&t("plain")), Some("string".to_string()));
    assert_eq!(infer_value_type(&t("  ")), None);
    assert_eq!(infer_value_type(&FieldValue::One(Scalar::Flag(true))), Some("boolean".to_string()));
    assert_eq!(
        infer_value_type(&FieldValue::One(Scalar::Num("3".to_string()))),
        Some("number".to_string()),
    );
}

#[test]
fn label_formatting() {
    assert_eq!(format_label("main_image"), "Main Image");
    assert_eq!(format_label("imageUrl"), "Image Url");
    assert_eq!(format_label("cover"), "Cover");
}

#[test]
fn generated_config_collects_custom_fields() {
    let raw = "---\ntitle: T\ndate: D\ncover: \"/images/c.png\"\ncover_alt: \"alt\"\n---\nB";
    let (doc, _) = MarkdownDocument::parse(raw).expect("parse failed");
    let cfg = generate_frontmatter_config(&vec![doc.frontmatter]);
    assert_eq!(cfg.version, "1.0");
    assert!(!cfg.is_default);
    let names: Vec<String> = cfg.custom_fields.iter().map(|f| f.name.clone()).collect();
    assert_eq!(names, vec!["cover".to_string(), "cover_alt".to_string()]);
    assert_eq!(cfg.custom_fields[0].field_type, "image");
    assert_eq!(cfg.preview_image_field, Some("cover".to_string()));
    assert_eq!(cfg.field_groups.len(), 1);
    assert_eq!(cfg.field_groups[0].fields, vec!["cover".to_string(), "cover_alt".to_string()]);
}

#[test]
fn hugo_config_extraction() {
    let toml_text = "title = \"My Site\"\nbaseURL = \"https://example.org\"\ntheme = \"paper\"";
    let raw = parse_hugo_config("toml", toml_text).expect("toml config failed");
    let cfg = HugoConfig::from_value(raw);
    assert_eq!(cfg.title, Some("My Site".to_string()));
    assert_eq!(cfg.base_url, Some("https://example.org".to_string()));
    assert_eq!(cfg.theme, Some("paper".to_string()));

    let json_raw = parse_hugo_config("json", "{\"title\": \"J\", \"languageCode\": \"en\"}")
        .expect("json config failed");
    let jcfg = HugoConfig::from_value(json_raw);
    assert_eq!(jcfg.title, Some("J".to_string()));
    assert_eq!(jcfg.language_code, Some("en".to_string()));

    let yaml_raw = parse_hugo_config("yaml", "title: Y\nbase_url: u").expect("yaml config failed");
    let ycfg = HugoConfig::from_value(yaml_raw);
    assert_eq!(ycfg.title, Some("Y".to_string()));
    assert_eq!(ycfg.base_url, Some("u".to_string()));

    let err = parse_hugo_config("ini", "x");
    assert_eq!(err.err(), Some("Unsupported Hugo config format".to_string()));
}

#[test]
fn relative_path_validation() {
    assert_eq!(validate_relative_path(""), Ok(()));
    assert_eq!(validate_relative_path("img/sub"), Ok(()));
    assert_eq!(validate_relative_path("/abs"), Err("Path must be relative".to_string()));
    assert_eq!(
        validate_relative_path("a/../b"),
        Err("Path must not contain parent or root segments".to_string()),
    );
    assert_eq!(
        validate_relative_path(".."),
        Err("Path must not contain parent or root segments".to_string()),
    );
    assert_eq!(validate_relative_path("a..b"), Ok(()));
    assert_eq!(validate_folder_name("pics"), Ok(()));
    assert_eq!(validate_folder_name(""), Err("Folder name is required".to_string()));
    assert_eq!(validate_folder_name(".."), Err("Invalid folder name".to_string()));
    assert_eq!(
        validate_folder_name("a/b"),
        Err("Folder name must not contain path separators".to_string()),
    );
}

#[test]
fn page_deletion_rules() {
    assert!(matches!(
        classify_page_deletion("/site/content/about.md"),
        PageDeletion::RefuseContentRoot,
    ));
    assert!(matches!(
        classify_page_deletion("/site/content/posts/a.md"),
        PageDeletion::RefusePostsOrDrafts,
    ));
    assert!(matches!(
        classify_page_deletion("/site/content/drafts/a.md"),
        PageDeletion::RefusePostsOrDrafts,
    ));
    assert!(matches!(
        classify_page_deletion("/site/content/about/index.md"),
        PageDeletion::DeleteFileAndParentIfEmpty,
    ));
    assert!(matches!(
        classify_page_deletion("/site/content/deep/note.md"),
        PageDeletion::DeleteFile,
    ));
}

#[test]
fn config_without_image_fields_has_no_group() {
    let raw = "---\ntitle: T\ndate: D\nweight: 2\n---\nB";
    let (doc, _) = MarkdownDocument::parse(raw).expect("parse failed");
    let cfg = generate_frontmatter_config(&vec![doc.frontmatter]);
    assert_eq!(cfg.preview_image_field, None);
    assert_eq!(cfg.field_groups.len(), 0);
    assert_eq!(cfg.custom_fields.len(), 1);
    assert_eq!(cfg.custom_fields[0].name, "weight");
    assert_eq!(cfg.custom_fields[0].label, Some("Weight".to_string()));
    assert_eq!(cfg.custom_fields[0].field_type, "number");
}

#[test]
fn preview_prefers_well_known_names() {
    let stats = vec![
        ("zimg".to_string(), FieldStats { total: 9, type_counts: Vec::new() }),
        ("banner".to_string(), FieldStats { total: 1, type_counts: Vec::new() }),
    ];
    let fields = vec!["zimg".to_string(), "banner".to_string()];
    assert_eq!(pick_preview_image_field(&stats, &fields), Some("banner".to_string()));
    // Without a well-known name the most often seen field wins.
    let fields2 = vec!["aimg".to_string(), "zimg".to_string()];
    assert_eq!(pick_preview_image_field(&stats, &fields2), Some("zimg".to_string()));
    assert_eq!(pick_preview_image_field(&stats, &Vec::new()), None);
}

#[test]
fn unsupported_and_malformed_configs_are_refused() {
    assert!(parse_hugo_config("toml", "= nonsense =").is_err());
    assert!(parse_hugo_config("json", "{not json").is_err());
    assert_eq!(
        parse_hugo_config("txt", "anything").err(),
        Some("Unsupported Hugo config format".to_string()),
    );
}
