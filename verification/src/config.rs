//! The tool's persisted configuration: a small TOML file with an optional
//! proxy, an optional data directory, and per-language sections. Reading
//! and writing the file is the caller's side; the text is parsed and
//! rendered here through the `toml` crate, and the key operations are
//! verified over the plain model.

use vstd::prelude::*;

verus! {

#[verifier::external_type_specification]
#[verifier::external_body]
#[verifier::reject_recursive_types(K)]
#[verifier::reject_recursive_types(V)]
pub struct ExTomlMap<K, V>(toml::map::Map<K, V>);

#[verifier::external_type_specification]
#[verifier::external_body]
pub struct ExTomlValue(toml::Value);

#[verifier::external_type_specification]
#[verifier::external_body]
pub struct ExTomlDeError(toml::de::Error);

#[verifier::external_type_specification]
#[verifier::external_body]
pub struct ExTomlSerError(toml::ser::Error);

/// Relies on toml::from_str with Table: parses a TOML document.
#[verifier::external_body]
fn toml_parse(s: &str) -> Result<toml::Table, toml::de::Error> {
    toml::from_str::<toml::Table>(s)
}

/// Relies on toml::to_string: renders a table as TOML text.
#[verifier::external_body]
fn toml_render(t: &toml::Table) -> Result<String, toml::ser::Error> {
    toml::to_string(t)
}

/// Relies on toml::map::Map::get: the named entry, when present.
#[verifier::external_body]
fn table_get(t: &toml::Table, key: &str) -> Option<toml::Value> {
    t.get(key).cloned()
}

/// Relies on toml::Value::as_str: the text when the value is a string.
#[verifier::external_body]
fn value_as_str(v: &toml::Value) -> Option<String> {
    v.as_str().map(|s| s.to_string())
}

/// Relies on toml::Value::as_table: the entries when the value is a table.
#[verifier::external_body]
fn value_as_table(v: &toml::Value) -> Option<toml::Table> {
    v.as_table().cloned()
}

/// Relies on toml::map::Map::new.
#[verifier::external_body]
fn table_new() -> toml::Table {
    toml::map::Map::new()
}

/// Relies on toml::map::Map::insert with a string value.
#[verifier::external_body]
fn table_insert_string(t: &mut toml::Table, key: &str, value: &str) {
    t.insert(key.to_string(), toml::Value::String(value.to_string()));
}

/// Relies on toml::map::Map::insert with a table value.
#[verifier::external_body]
fn table_insert_table(t: &mut toml::Table, key: &str, value: toml::Table) {
    t.insert(key.to_string(), toml::Value::Table(value));
}

/// One language section of the configuration.
#[derive(Debug, Clone)]
pub struct GeneralLanguageConfig {
    pub proxy: Option<String>,
    pub mirror: Option<String>,
}

/// The Java section: as the general one, plus a default vendor.
#[derive(Debug, Clone)]
pub struct JavaConfig {
    pub proxy: Option<String>,
    pub mirror: Option<String>,
    pub default_vendor: Option<String>,
}

/// The whole configuration.
#[derive(Debug, Clone)]
pub struct UvmConfig {
    pub proxy: Option<String>,
    pub data_dir: Option<String>,
    pub go: Option<GeneralLanguageConfig>,
    pub node: Option<GeneralLanguageConfig>,
    pub java: Option<JavaConfig>,
}

/// Reading or writing the configuration failed.
#[derive(Debug, Clone, PartialEq, Eq, Structural)]
pub enum ConfigError {
    ConfigRead,
    ConfigConvert,
}

fn default_config() -> (r: UvmConfig)
    ensures
        r.proxy is None,
        r.data_dir is None,
        r.go is None,
        r.node is None,
        r.java is None,
{
    UvmConfig { proxy: None, data_dir: None, go: None, node: None, java: None }
}

fn general_section_of(v: &toml::Value) -> Option<GeneralLanguageConfig> {
    let t = match value_as_table(v) {
        Some(t) => t,
        None => {
            return None;
        },
    };
    let proxy = match table_get(&t, "proxy") {
        Some(x) => value_as_str(&x),
        None => None,
    };
    let mirror = match table_get(&t, "mirror") {
        Some(x) => value_as_str(&x),
        None => None,
    };
    Some(GeneralLanguageConfig { proxy, mirror })
}

fn java_section_of(v: &toml::Value) -> Option<JavaConfig> {
    let t = match value_as_table(v) {
        Some(t) => t,
        None => {
            return None;
        },
    };
    let proxy = match table_get(&t, "proxy") {
        Some(x) => value_as_str(&x),
        None => None,
    };
    let mirror = match table_get(&t, "mirror") {
        Some(x) => value_as_str(&x),
        None => None,
    };
    let default_vendor = match table_get(&t, "default_vendor") {
        Some(x) => value_as_str(&x),
        None => None,
    };
    Some(JavaConfig { proxy, mirror, default_vendor })
}

impl UvmConfig {
    /// Parses configuration text; text that is not a TOML table is a read
    /// failure.
    pub fn load_config(text: &str) -> Result<UvmConfig, ConfigError> {
        let table = match toml_parse(text) {
            Ok(t) => t,
            Err(_) => {
                return Err(ConfigError::ConfigRead);
            },
        };
        let proxy = match table_get(&table, "proxy") {
            Some(x) => value_as_str(&x),
            None => None,
        };
        let data_dir = match table_get(&table, "data_dir") {
            Some(x) => value_as_str(&x),
            None => None,
        };
        let go = match table_get(&table, "go") {
            Some(x) => general_section_of(&x),
            None => None,
        };
        let node = match table_get(&table, "node") {
            Some(x) => general_section_of(&x),
            None => None,
        };
        let java = match table_get(&table, "java") {
            Some(x) => java_section_of(&x),
            None => None,
        };
        Ok(UvmConfig { proxy, data_dir, go, node, java })
    }

    /// Renders the configuration as TOML text, for the caller to write.
    pub fn save(&self) -> Result<String, ConfigError> {
        let mut table = table_new();
        match &self.proxy {
            Some(p) => {
                table_insert_string(&mut table, "proxy", p.as_str());
            },
            None => {
            },
        }
        match &self.data_dir {
            Some(p) => {
                table_insert_string(&mut table, "data_dir", p.as_str());
            },
            None => {
            },
        }
        match &self.go {
            Some(g) => {
                table_insert_table(&mut table, "go", general_section_table(g));
            },
            None => {
            },
        }
        match &self.node {
            Some(g) => {
                table_insert_table(&mut table, "node", general_section_table(g));
            },
            None => {
            },
        }
        match &self.java {
            Some(g) => {
                table_insert_table(&mut table, "java", java_section_table(g));
            },
            None => {
            },
        }
        match toml_render(&table) {
            Ok(s) => Ok(s),
            Err(_) => Err(ConfigError::ConfigConvert),
        }
    }
}

fn general_section_table(g: &GeneralLanguageConfig) -> toml::Table {
    let mut t = table_new();
    match &g.proxy {
        Some(p) => {
            table_insert_string(&mut t, "proxy", p.as_str());
        },
        None => {
        },
    }
    match &g.mirror {
        Some(p) => {
            table_insert_string(&mut t, "mirror", p.as_str());
        },
        None => {
        },
    }
    t
}

fn java_section_table(g: &JavaConfig) -> toml::Table {
    let mut t = table_new();
    match &g.proxy {
        Some(p) => {
            table_insert_string(&mut t, "proxy", p.as_str());
        },
        None => {
        },
    }
    match &g.mirror {
        Some(p) => {
            table_insert_string(&mut t, "mirror", p.as_str());
        },
        None => {
        },
    }
    match &g.default_vendor {
        Some(p) => {
            table_insert_string(&mut t, "default_vendor", p.as_str());
        },
        None => {
        },
    }
    t
}

/// The configuration from optional file text: an absent or unreadable file
/// yields the default.
pub fn load_config(text: Option<&str>) -> (r: UvmConfig)
    ensures
        text is None ==> r.proxy is None && r.data_dir is None && r.go is None && r.node is None
            && r.java is None,
{
    match text {
        Some(t) => match UvmConfig::load_config(t) {
            Ok(c) => c,
            Err(_) => default_config(),
        },
        None => default_config(),
    }
}

// ---------------------------------------------------------------------------
// The key operations.
// ---------------------------------------------------------------------------

/// A configuration key the key commands can address.
#[derive(Debug, Clone, Copy, PartialEq, Eq, Hash, Structural)]
pub enum ConfigKey {
    Proxy,
}

/// Where the configuration file lives.
pub struct ConfigContext {
    pub home_dir: String,
}

pub struct ConfigExecutor {

}

impl ConfigExecutor {
    /// The configuration from the file's text, default when absent or
    /// unreadable.
    pub fn load(&self, text: Option<&str>) -> (r: UvmConfig)
        ensures
            text is None ==> r.proxy is None && r.data_dir is None && r.go is None && r.node
                is None && r.java is None,
    {
        load_config(text)
    }

    /// Reads the asked-for keys out of a configuration: the proxy is
    /// reported exactly when asked for and set.
    pub fn get(&self, keys: &Vec<ConfigKey>, config: &UvmConfig) -> (r: Vec<(ConfigKey, String)>)
        ensures
            (keys@.contains(ConfigKey::Proxy) && config.proxy is Some) ==> (r@.len() == 1 && r@[0].0
                == ConfigKey::Proxy && Some(r@[0].1) == config.proxy),
            !(keys@.contains(ConfigKey::Proxy) && config.proxy is Some) ==> r@.len() == 0,
    {
        let mut r: Vec<(ConfigKey, String)> = Vec::new();
        let n = keys.len();
        let mut i: usize = 0;
        let mut asked = false;
        while i < n
            invariant
                i <= n,
                n == keys@.len(),
                asked == exists|j: int| 0 <= j < i && keys@[j] == ConfigKey::Proxy,
            decreases n - i,
        {
            match keys[i] {
                ConfigKey::Proxy => {
                    asked = true;
                },
            }
            i = i + 1;
        }
        if asked {
            match &config.proxy {
                Some(p) => {
                    r.push((ConfigKey::Proxy, p.clone()));
                },
                None => {
                },
            }
        }
        r
    }

    /// Applies key assignments: the last proxy assignment wins; with none,
    /// the proxy stays.
    pub fn set(&self, kvs: &Vec<(ConfigKey, String)>, config: &mut UvmConfig)
        ensures
            final(config).data_dir == old(config).data_dir,
            final(config).go == old(config).go,
            final(config).node == old(config).node,
            final(config).java == old(config).java,
            kvs@.len() > 0 ==> final(config).proxy == Some(kvs@.last().1),
            kvs@.len() == 0 ==> final(config).proxy == old(config).proxy,
    {
        let n = kvs.len();
        let mut i: usize = 0;
        while i < n
            invariant
                i <= n,
                n == kvs@.len(),
                config.data_dir == old(config).data_dir,
                config.go == old(config).go,
                config.node == old(config).node,
                config.java == old(config).java,
                i > 0 ==> config.proxy == Some(kvs@[i - 1].1),
                i == 0 ==> config.proxy == old(config).proxy,
            decreases n - i,
        {
            match kvs[i].0 {
                ConfigKey::Proxy => {
                    config.proxy = Some(kvs[i].1.clone());
                },
            }
            i = i + 1;
        }
    }

    /// Deletes the named keys: asking for the proxy clears it.
    pub fn del(&self, keys: &Vec<ConfigKey>, config: &mut UvmConfig)
        ensures
            final(config).data_dir == old(config).data_dir,
            final(config).go == old(config).go,
            final(config).node == old(config).node,
            final(config).java == old(config).java,
            keys@.len() > 0 ==> final(config).proxy is None,
            keys@.len() == 0 ==> final(config).proxy == old(config).proxy,
    {
        let n = keys.len();
        let mut i: usize = 0;
        while i < n
            invariant
                i <= n,
                n == keys@.len(),
                config.data_dir == old(config).data_dir,
                config.go == old(config).go,
                config.node == old(config).node,
                config.java == old(config).java,
                i > 0 ==> config.proxy is None,
                i == 0 ==> config.proxy == old(config).proxy,
            decreases n - i,
        {
            match keys[i] {
                ConfigKey::Proxy => {
                    config.proxy = None;
                },
            }
            i = i + 1;
        }
    }
}

} // verus!
