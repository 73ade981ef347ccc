use moostache::errors::MoostacheError;
use moostache::fileloader::FileLoader;
use moostache::loader::{template_name_of_path, HashMapLoader, LoaderConfig};
use moostache::render::TemplateLoader;
use moostache::template::Template;
use moostache::value::Value;

fn pairs(list: Vec<(&str, &str)>) -> Vec<(String, String)> {
    list.into_iter().map(|(k, v)| (k.to_string(), v.to_string())).collect()
}

#[test]
fn miri_iso_render_partial_hashmap() {
    let source = "{{>partial}}!";
    let data = Value::Null;
    let loader = HashMapLoader::from_pairs(pairs(vec![("partial", "hello world")])).unwrap();
    let template = Template::parse(&source.to_owned()).unwrap();
    let rendered = template.render_to_string(&loader, &data).unwrap();
    let expected = "hello world!";
    assert_eq!(rendered, expected);
}

#[test]
fn miri_iso_render_partial_hashmap_utf8() {
    let source = "{{>partial}}!";
    let data = Value::Null;
    let loader = HashMapLoader::from_pairs(pairs(vec![("partial", "hello 🦀")])).unwrap();
    let template = Template::parse(&source.to_owned()).unwrap();
    let rendered = template.render_to_string(&loader, &data).unwrap();
    let expected = "hello 🦀!";
    assert_eq!(rendered, expected);
}

#[test]
fn miri_iso_render_partial_padded_hashmap() {
    let source = "{{>  partial  }}!";
    let data = Value::Null;
    let loader = HashMapLoader::from_pairs(pairs(vec![("partial", "hello world")])).unwrap();
    let template = Template::parse(&source.to_owned()).unwrap();
    let rendered = template.render_to_string(&loader, &data).unwrap();
    let expected = "hello world!";
    assert_eq!(rendered, expected);
}

#[test]
fn render_nested_partials() {
    let source = "{{>outer}}!";
    let data = Value::Object(vec![("name".to_string(), Value::Str("world".to_string()))]);
    let loader = HashMapLoader::from_pairs(pairs(vec![
        ("outer", "[{{>inner}}]"),
        ("inner", "hello {{ name }}"),
    ]))
    .unwrap();
    let template = Template::parse(source).unwrap();
    let rendered = template.render_to_string(&loader, &data).unwrap();
    assert_eq!(rendered, "[hello world]!");
}

#[test]
fn render_missing_partial_not_found() {
    let source = "{{>nowhere}}!";
    let template = Template::parse(source).unwrap();
    let err = template.render_no_partials_to_string(&Value::Null).unwrap_err();
    assert_eq!(err, MoostacheError::LoaderErrorTemplateNotFound("nowhere".to_string()));
}

#[test]
fn render_self_referential_partial_not_found() {
    let source = "{{>loop}}";
    let loader = HashMapLoader::from_pairs(pairs(vec![("loop", "again: {{>loop}}")])).unwrap();
    let template = Template::parse(source).unwrap();
    let err = template.render_to_string(&loader, &Value::Null).unwrap_err();
    assert_eq!(err, MoostacheError::LoaderErrorTemplateNotFound("loop".to_string()));
}

#[test]
fn render_by_name_from_loader() {
    let loader = HashMapLoader::from_pairs(pairs(vec![
        ("greet", "hello {{ name }}!"),
    ]))
    .unwrap();
    let data = Value::Object(vec![("name".to_string(), Value::Str("world".to_string()))]);
    let rendered = moostache::render::render_to_string(&loader, "greet", &data).unwrap();
    assert_eq!(rendered, "hello world!");
}

#[test]
fn hashmap_loader_from_pairs_parse_error_names_template() {
    let err = HashMapLoader::from_pairs(pairs(vec![("bad", "{{ oops% }}")])).unwrap_err();
    assert_eq!(err, MoostacheError::ParseErrorInvalidEscapedVariableTag("bad".to_string()));
}

#[test]
fn hashmap_loader_get_insert_remove() {
    let mut loader = HashMapLoader::from_pairs(pairs(vec![("a", "one")])).unwrap();
    assert!(loader.get("a").is_some());
    assert!(loader.get("b").is_none());
    let replaced = loader.insert("a".to_string(), Template::parse("two").unwrap());
    assert_eq!(replaced, Some(Template::parse("one").unwrap()));
    let removed = loader.remove("a");
    assert_eq!(removed, Some(Template::parse("two").unwrap()));
    assert!(loader.get("a").is_none());
    assert!(loader.remove("a").is_none());
}

#[test]
fn hashmap_loader_from_directory_entries_respects_cache_size() {
    let config = LoaderConfig { templates_directory: "t", templates_extension: "html", cache_size: 1 };
    let err = HashMapLoader::from_directory_entries(
        &config,
        true,
        pairs(vec![("a", "one"), ("b", "two")]),
    )
    .unwrap_err();
    assert_eq!(err, MoostacheError::ConfigErrorTooManyTemplates);

    let ok = HashMapLoader::from_directory_entries(&config, true, pairs(vec![("a", "one")]));
    assert!(ok.is_ok());
}

#[test]
fn hashmap_loader_from_directory_entries_checks_config() {
    let zero = LoaderConfig { templates_directory: "t", templates_extension: "html", cache_size: 0 };
    let err = HashMapLoader::from_directory_entries(&zero, true, vec![]).unwrap_err();
    assert_eq!(err, MoostacheError::ConfigErrorNonPositiveCacheSize);

    let config = LoaderConfig::default();
    let err = HashMapLoader::from_directory_entries(&config, false, vec![]).unwrap_err();
    assert_eq!(
        err,
        MoostacheError::ConfigErrorInvalidTemplatesDirectory("./templates/".to_string())
    );
}

#[test]
fn loader_config_default_values() {
    assert_eq!(
        LoaderConfig::default(),
        LoaderConfig {
            templates_directory: "./templates/",
            templates_extension: ".html",
            cache_size: 200,
        },
    );
}

#[test]
fn loader_config_validate_normalizes() {
    let config =
        LoaderConfig { templates_directory: "./t", templates_extension: "tpl", cache_size: 3 };
    let (dir, ext, cache) = config.validate().unwrap();
    assert_eq!(dir, "./t/");
    assert_eq!(ext, ".tpl");
    assert_eq!(cache, 3);

    let already =
        LoaderConfig { templates_directory: "./t/", templates_extension: ".tpl", cache_size: 3 };
    let (dir, ext, _) = already.validate().unwrap();
    assert_eq!(dir, "./t/");
    assert_eq!(ext, ".tpl");

    let zero = LoaderConfig { templates_directory: "./t", templates_extension: "tpl", cache_size: 0 };
    assert_eq!(zero.validate().unwrap_err(), MoostacheError::ConfigErrorNonPositiveCacheSize);
}

#[test]
fn template_name_strips_directory_and_extension() {
    assert_eq!(
        template_name_of_path("./templates/nested/greet.html", "./templates/", ".html"),
        Some("nested/greet".to_string())
    );
    assert_eq!(template_name_of_path("./other/greet.html", "./templates/", ".html"), None);
    assert_eq!(template_name_of_path("./templates/greet.txt", "./templates/", ".html"), None);
}

#[test]
fn file_loader_builds_paths() {
    let config =
        LoaderConfig { templates_directory: "./templates", templates_extension: "html", cache_size: 2 };
    let loader = FileLoader::from_config(&config, true).unwrap();
    assert_eq!(loader.template_path("nested/greet"), "./templates/nested/greet.html");
}

#[test]
fn file_loader_checks_config() {
    let zero = LoaderConfig { templates_directory: "./t", templates_extension: "html", cache_size: 0 };
    assert_eq!(
        FileLoader::from_config(&zero, true).unwrap_err(),
        MoostacheError::ConfigErrorNonPositiveCacheSize
    );
    let config = LoaderConfig::default();
    assert_eq!(
        FileLoader::from_config(&config, false).unwrap_err(),
        MoostacheError::ConfigErrorInvalidTemplatesDirectory("./templates/".to_string())
    );
}

#[test]
fn file_loader_caches_and_promotes() {
    let config = LoaderConfig { templates_directory: "./t", templates_extension: "html", cache_size: 2 };
    let mut loader = FileLoader::from_config(&config, true).unwrap();
    assert!(loader.get_cached("a").is_none());
    assert!(loader.insert("a".to_string(), Template::parse("one").unwrap()).is_none());
    assert!(loader.insert("b".to_string(), Template::parse("two").unwrap()).is_none());
    assert_eq!(loader.get_cached("a"), Some(&Template::parse("one").unwrap()));
    let replaced = loader.insert("a".to_string(), Template::parse("uno").unwrap());
    assert_eq!(replaced, Some(Template::parse("one").unwrap()));
    assert_eq!(loader.get_cached("a"), Some(&Template::parse("uno").unwrap()));
    assert_eq!(loader.get_cached("b"), Some(&Template::parse("two").unwrap()));
}

#[test]
fn file_loader_evicts_least_recently_used() {
    let config = LoaderConfig { templates_directory: "./t", templates_extension: "html", cache_size: 2 };
    let mut loader = FileLoader::from_config(&config, true).unwrap();
    loader.insert("a".to_string(), Template::parse("one").unwrap());
    loader.insert("b".to_string(), Template::parse("two").unwrap());
    // touching `a` makes `b` the least recently used entry
    assert!(loader.get_cached("a").is_some());
    assert!(loader.insert("c".to_string(), Template::parse("three").unwrap()).is_none());
    assert!(loader.get_cached("b").is_none());
    assert!(loader.get_cached("a").is_some());
    assert!(loader.get_cached("c").is_some());
}

#[test]
fn file_loader_remove_returns_template() {
    let config = LoaderConfig { templates_directory: "./t", templates_extension: "html", cache_size: 2 };
    let mut loader = FileLoader::from_config(&config, true).unwrap();
    loader.insert("a".to_string(), Template::parse("one").unwrap());
    assert_eq!(loader.remove("a"), Some(Template::parse("one").unwrap()));
    assert_eq!(loader.remove("a"), None);
    assert!(loader.get_cached("a").is_none());
}

#[test]
fn file_loader_same_name_replacement_evicts_nothing() {
    let config = LoaderConfig { templates_directory: "./t", templates_extension: "html", cache_size: 2 };
    let mut loader = FileLoader::from_config(&config, true).unwrap();
    loader.insert("a".to_string(), Template::parse("one").unwrap());
    loader.insert("b".to_string(), Template::parse("two").unwrap());
    // replacing at capacity touches only the replaced entry
    let replaced = loader.insert("b".to_string(), Template::parse("dos").unwrap());
    assert_eq!(replaced, Some(Template::parse("two").unwrap()));
    assert_eq!(loader.get_cached("a"), Some(&Template::parse("one").unwrap()));
    assert_eq!(loader.get_cached("b"), Some(&Template::parse("dos").unwrap()));
}

#[test]
fn file_loader_never_outgrows_capacity() {
    let config = LoaderConfig { templates_directory: "./t", templates_extension: "html", cache_size: 2 };
    let mut loader = FileLoader::from_config(&config, true).unwrap();
    for (name, body) in [("a", "1"), ("b", "2"), ("c", "3"), ("d", "4")] {
        loader.insert(name.to_string(), Template::parse(body).unwrap());
    }
    // only the two most recent survive
    assert!(loader.get_cached("a").is_none());
    assert!(loader.get_cached("b").is_none());
    assert!(loader.get_cached("c").is_some());
    assert!(loader.get_cached("d").is_some());
}
