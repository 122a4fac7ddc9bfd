//! Site configuration: the user's config file is decoded by the format
//! crates into one generic value, and the few fields the application shows
//! are extracted from its top-level string entries.

use vstd::prelude::*;

verus! {

#[verifier::external_type_specification]
#[verifier::external_body]
pub struct ExJsonValue(serde_json::Value);

/// The top-level entries of a decoded config value whose values are
/// strings, as a map from key to text.
pub uninterp spec fn config_string_entries(v: serde_json::Value) -> Map<Seq<char>, Seq<char>>;

/// Whether a text decodes as a TOML document.
pub uninterp spec fn toml_decodes(s: Seq<char>) -> bool;

/// The top-level string entries of a text read as a TOML document.
pub uninterp spec fn toml_string_entries(s: Seq<char>) -> Map<Seq<char>, Seq<char>>;

/// Whether a text decodes as a YAML document.
pub uninterp spec fn yaml_decodes(s: Seq<char>) -> bool;

/// The top-level string entries of a text read as a YAML document.
pub uninterp spec fn yaml_string_entries(s: Seq<char>) -> Map<Seq<char>, Seq<char>>;

/// Whether a text decodes as a JSON document.
pub uninterp spec fn json_decodes(s: Seq<char>) -> bool;

/// The top-level string entries of a text read as a JSON document.
pub uninterp spec fn json_string_entries(s: Seq<char>) -> Map<Seq<char>, Seq<char>>;

/// Relies on `serde_json::Value::get` and `Value::as_str`: looks one
/// top-level key up and hands its text back when the value is a string.
#[verifier::external_body]
fn get_string_at(v: &serde_json::Value, key: &str) -> (r: Option<String>)
    ensures
        (match r {
            Some(s) => config_string_entries(*v).contains_key(key@) && s@
                == config_string_entries(*v)[key@],
            None => !config_string_entries(*v).contains_key(key@),
        }),
{
    v.get(key).and_then(|x| x.as_str()).map(|s| s.to_string())
}

/// Relies on `toml::from_str::<toml::Value>` and `serde_json::to_value`:
/// decodes a whole TOML document and bridges it into the generic JSON
/// value shape. Decoding succeeds on the text alone; the bridge cannot
/// fail on a decoded TOML value, whose keys are all strings, and carries
/// its top-level string entries over unchanged.
#[verifier::external_body]
fn toml_json_value_of(content: &str) -> (r: Result<serde_json::Value, String>)
    ensures
        (r is Ok) == toml_decodes(content@),
        (r matches Ok(v) ==> config_string_entries(v) == toml_string_entries(content@)),
{
    match toml::from_str::<toml::Value>(content) {
        Ok(tv) => serde_json::to_value(tv).map_err(|e| format!("Failed to convert TOML config: {}", e)),
        Err(e) => Err(format!("Failed to parse TOML config: {}", e)),
    }
}

/// Relies on `serde_yaml::from_str::<serde_json::Value>`: decodes a whole
/// YAML document into the generic JSON value shape. Success depends on
/// the text alone, and the result's top-level string entries are the
/// document's.
#[verifier::external_body]
fn yaml_json_value_of(content: &str) -> (r: Result<serde_json::Value, String>)
    ensures
        (r is Ok) == yaml_decodes(content@),
        (r matches Ok(v) ==> config_string_entries(v) == yaml_string_entries(content@)),
{
    serde_yaml::from_str::<serde_json::Value>(content).map_err(
        |e| format!("Failed to parse YAML config: {}", e),
    )
}

/// Relies on `serde_json::from_str::<serde_json::Value>`: decodes a whole
/// JSON document. Success depends on the text alone, and the result's
/// top-level string entries are the document's.
#[verifier::external_body]
fn json_value_of_str(content: &str) -> (r: Result<serde_json::Value, String>)
    ensures
        (r is Ok) == json_decodes(content@),
        (r matches Ok(v) ==> config_string_entries(v) == json_string_entries(content@)),
{
    serde_json::from_str::<serde_json::Value>(content).map_err(
        |e| format!("Failed to parse JSON config: {}", e),
    )
}

/// The value of the first listed key that maps to a string entry.
pub open spec fn first_present(
    m: Map<Seq<char>, Seq<char>>,
    keys: Seq<Seq<char>>,
    i: int,
) -> Option<Seq<char>>
    decreases keys.len() - i,
{
    if i < 0 || i >= keys.len() {
        None
    } else if m.contains_key(keys[i]) {
        Some(m[keys[i]])
    } else {
        first_present(m, keys, i + 1)
    }
}

/// The string entry under the first of the given keys that carries one.
pub fn extract_string(v: &serde_json::Value, keys: &Vec<&str>) -> (r: Option<String>)
    ensures
        (match r {
            Some(s) => first_present(
                config_string_entries(*v),
                keys@.map_values(|k: &str| k@),
                0,
            ) == Some(s@),
            None => first_present(
                config_string_entries(*v),
                keys@.map_values(|k: &str| k@),
                0,
            ) is None,
        }),
{
    let ghost kv = keys@.map_values(|k: &str| k@);
    let ghost m = config_string_entries(*v);
    let mut i: usize = 0;
    while i < keys.len()
        invariant
            i <= keys@.len(),
            kv == keys@.map_values(|k: &str| k@),
            m == config_string_entries(*v),
            first_present(m, kv, 0) == first_present(m, kv, i as int),
        decreases keys@.len() - i,
    {
        match get_string_at(v, keys[i]) {
            Some(s) => {
                proof {
                    assert(kv[i as int] == keys@[i as int]@);
                }
                return Some(s);
            },
            None => {
                proof {
                    assert(kv[i as int] == keys@[i as int]@);
                }
            },
        }
        i = i + 1;
    }
    None
}

/// The few site-configuration fields the application shows, next to the
/// whole decoded value.
pub struct HugoConfig {
    pub title: Option<String>,
    pub base_url: Option<String>,
    pub language_code: Option<String>,
    pub default_content_language: Option<String>,
    pub theme: Option<String>,
    pub raw: serde_json::Value,
}

pub open spec fn opt_view(o: Option<String>) -> Option<Seq<char>> {
    match o {
        Some(s) => Some(s@),
        None => None,
    }
}

impl HugoConfig {
    /// Extracts the displayed fields from a decoded config value.
    pub fn from_value(raw: serde_json::Value) -> (r: HugoConfig)
        ensures
            opt_view(r.title) == first_present(config_string_entries(raw), seq!["title"@], 0),
            opt_view(r.base_url) == first_present(
                config_string_entries(raw),
                seq!["baseURL"@, "baseUrl"@, "base_url"@],
                0,
            ),
            opt_view(r.language_code) == first_present(
                config_string_entries(raw),
                seq!["languageCode"@, "language_code"@],
                0,
            ),
            opt_view(r.default_content_language) == first_present(
                config_string_entries(raw),
                seq!["defaultContentLanguage"@, "default_content_language"@],
                0,
            ),
            opt_view(r.theme) == first_present(config_string_entries(raw), seq!["theme"@], 0),
            r.raw == raw,
    {
        let k_title: Vec<&str> = vec!["title"];
        let k_base: Vec<&str> = vec!["baseURL", "baseUrl", "base_url"];
        let k_lang: Vec<&str> = vec!["languageCode", "language_code"];
        let k_dcl: Vec<&str> = vec!["defaultContentLanguage", "default_content_language"];
        let k_theme: Vec<&str> = vec!["theme"];
        proof {
            assert(k_title@.map_values(|k: &str| k@) =~= seq!["title"@]);
            assert(k_base@.map_values(|k: &str| k@) =~= seq!["baseURL"@, "baseUrl"@, "base_url"@]);
            assert(k_lang@.map_values(|k: &str| k@) =~= seq!["languageCode"@, "language_code"@]);
            assert(k_dcl@.map_values(|k: &str| k@) =~= seq![
                "defaultContentLanguage"@,
                "default_content_language"@,
            ]);
            assert(k_theme@.map_values(|k: &str| k@) =~= seq!["theme"@]);
        }
        let title = extract_string(&raw, &k_title);
        let base_url = extract_string(&raw, &k_base);
        let language_code = extract_string(&raw, &k_lang);
        let default_content_language = extract_string(&raw, &k_dcl);
        let theme = extract_string(&raw, &k_theme);
        HugoConfig { title, base_url, language_code, default_content_language, theme, raw }
    }
}

/// Decodes a config file's text by its extension: one structured-mapping
/// syntax per extension, all normalized into the generic value shape with
/// their top-level string entries preserved. Any other extension is
/// refused.
pub fn parse_hugo_config(extension: &str, content: &str) -> (r: Result<serde_json::Value, String>)
    ensures
        extension@ == "toml"@ ==> (r is Ok) == toml_decodes(content@) && (r matches Ok(v)
            ==> config_string_entries(v) == toml_string_entries(content@)),
        extension@ == "yml"@ || extension@ == "yaml"@ ==> (r is Ok) == yaml_decodes(content@) && (
        r matches Ok(v) ==> config_string_entries(v) == yaml_string_entries(content@)),
        extension@ == "json"@ ==> (r is Ok) == json_decodes(content@) && (r matches Ok(v)
            ==> config_string_entries(v) == json_string_entries(content@)),
        !(extension@ == "toml"@ || extension@ == "yml"@ || extension@ == "yaml"@ || extension@
            == "json"@) ==> (r matches Err(e) && e@ == "Unsupported Hugo config format"@),
{
    proof {
        reveal_strlit("toml");
        reveal_strlit("yml");
        reveal_strlit("yaml");
        reveal_strlit("json");
        assert("toml"@.len() != "yml"@.len() && "yaml"@.len() != "yml"@.len() && "json"@.len()
            != "yml"@.len());
        assert("toml"@[0] != "yaml"@[0] && "toml"@[0] != "json"@[0] && "yaml"@[0] != "json"@[0]);
    }
    let ec = crate::text::chars_of(extension);
    if crate::classify::eq_chars(&ec, &crate::text::chars_of("toml")) {
        toml_json_value_of(content)
    } else if crate::classify::eq_chars(&ec, &crate::text::chars_of("yml")) || crate::classify::eq_chars(
        &ec,
        &crate::text::chars_of("yaml"),
    ) {
        yaml_json_value_of(content)
    } else if crate::classify::eq_chars(&ec, &crate::text::chars_of("json")) {
        json_value_of_str(content)
    } else {
        Err("Unsupported Hugo config format".to_owned())
    }
}

} // verus!
