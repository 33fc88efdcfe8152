//! Configuration module: read and write the configuration document.

use vstd::prelude::*;

use crate::appdir::user_config_root;
use crate::error::{Error, ErrorSpec};
use crate::fs_extra::{fs_read_file, fs_write_file};
use crate::hupa::Hupa;
use crate::jsonval::{
    json_dump_pretty, json_parse, json_text_pretty, json_view_obj, lemma_json_view_obj, obj_get,
    parsed_json, JsonSpec, JsonVal,
};

verus! {

/// Configuration structure to read and write config.
#[derive(Debug, Clone)]
pub struct Config {
    /// Path to the metadata.
    pub metadata_path: String,
    /// Interval between each autobackup, in seconds.
    pub autobackup_interval: u64,
    /// Path to vars.
    pub vars_path: String,
}

/// The metadata path of a configuration document, when it holds one as
/// text.
pub open spec fn conf_metadata_path(v: JsonSpec) -> Option<Seq<char>> {
    match v {
        JsonSpec::Obj(fields) => match obj_get(fields, "metadata_path"@) {
            Some(JsonSpec::Str(s)) => Some(s),
            _ => None,
        },
        _ => None,
    }
}

/// The autobackup interval of a configuration document; an hour when the
/// document names none.
pub open spec fn conf_interval(v: JsonSpec) -> u64 {
    match v {
        JsonSpec::Obj(fields) => match obj_get(fields, "autobackup_interval"@) {
            Some(JsonSpec::Num(n)) => n,
            _ => 3600,
        },
        _ => 3600,
    }
}

/// The vars path of a configuration document, when it holds one as text.
pub open spec fn conf_vars_path(v: JsonSpec) -> Option<Seq<char>> {
    match v {
        JsonSpec::Obj(fields) => match obj_get(fields, "vars_path"@) {
            Some(JsonSpec::Str(s)) => Some(s),
            _ => None,
        },
        _ => None,
    }
}

/// The document that stands for a configuration.
pub open spec fn config_json(metadata_path: Seq<char>, interval: u64, vars_path: Seq<char>) -> JsonSpec {
    JsonSpec::Obj(
        seq![
            ("metadata_path"@, JsonSpec::Str(metadata_path)),
            ("autobackup_interval"@, JsonSpec::Num(interval)),
            ("vars_path"@, JsonSpec::Str(vars_path)),
        ],
    )
}

impl Config {
    /// Default constructor.
    pub fn new(metadata_path: String, autobackup_interval: u64, vars_path: String) -> (r: Config)
        ensures
            r.metadata_path@ == metadata_path@,
            r.autobackup_interval == autobackup_interval,
            r.vars_path@ == vars_path@,
    {
        Config { metadata_path, autobackup_interval, vars_path }
    }

    /// Path to the config: the per-user configuration directory and the
    /// name `config`.
    pub fn config_path() -> (r: Result<String, Error>)
        ensures
            r matches Ok(p) ==> p@.len() >= 7 && p@.skip(p@.len() - 7) == "/config"@,
            r matches Err(e) ==> e@ is Io,
    {
        let root = match user_config_root() {
            Ok(p) => p,
            Err(m) => {
                return Err(Error::Io(m));
            },
        };
        let mut p = root;
        p.append("/config");
        proof {
            reveal_strlit("/config");
            assert(p@.skip(p@.len() - 7) =~= "/config"@);
        }
        Ok(p)
    }

    /// Read config from its text.
    ///
    /// The metadata path must be named as text; a missing interval reads
    /// as an hour; a missing vars path falls back to the default vars
    /// path, which depends on the environment.
    pub fn from_json_stream(buf: &str) -> (r: Result<Config, Error>)
        ensures
            parsed_json(buf@) is None ==> (r matches Err(e) && e@ is Io),
            parsed_json(buf@) matches Some(v) ==> match conf_metadata_path(v) {
                None => r matches Err(e) && e@ is MissingMetadataPath,
                Some(mp) => match r {
                    Ok(c) => {
                        &&& c.metadata_path@ == mp
                        &&& c.autobackup_interval == conf_interval(v)
                        &&& (conf_vars_path(v) matches Some(vp) ==> c.vars_path@ == vp)
                        &&& (conf_vars_path(v) is None ==> c.vars_path@.len() >= 5
                            && c.vars_path@.skip(c.vars_path@.len() - 5) == "/vars"@)
                    },
                    Err(e) => e@ is Io && conf_vars_path(v) is None,
                },
            },
    {
        let json = match json_parse(buf) {
            Some(v) => v,
            None => {
                return Err(Error::Io(not_valid_json()));
            },
        };
        let metadata_path = match json.get("metadata_path") {
            Some(x) => match x.as_str() {
                Some(s) => s.clone(),
                None => {
                    return Err(Error::MissingMetadataPath);
                },
            },
            None => {
                return Err(Error::MissingMetadataPath);
            },
        };
        let autobackup_interval = match json.get("autobackup_interval") {
            Some(x) => match x.as_u64() {
                Some(n) => n,
                None => 3600,
            },
            None => 3600,
        };
        let vars_path = match json.get("vars_path") {
            Some(x) => match x.as_str() {
                Some(s) => s.clone(),
                None => match crate::vars::VarsHandler::get_default_path() {
                    Ok(p) => p,
                    Err(e) => {
                        return Err(e);
                    },
                },
            },
            None => match crate::vars::VarsHandler::get_default_path() {
                Ok(p) => p,
                Err(e) => {
                    return Err(e);
                },
            },
        };
        Ok(Config { metadata_path, autobackup_interval, vars_path })
    }

    /// Read config from the default config path.
    pub fn read_config() -> (r: Result<Config, Error>)
        ensures
            r matches Err(e) ==> e@ is Io || e@ is MissingMetadataPath,
    {
        let path = match Config::config_path() {
            Ok(p) => p,
            Err(e) => {
                return Err(e);
            },
        };
        Config::read_config_from_path(path.as_str())
    }

    /// Read config from a path.
    pub fn read_config_from_path(path: &str) -> (r: Result<Config, Error>)
        ensures
            r matches Err(e) ==> e@ is Io || e@ is MissingMetadataPath,
    {
        let buf = match fs_read_file(path) {
            Ok(s) => s,
            Err(m) => {
                return Err(Error::Io(m));
            },
        };
        Config::from_json_stream(buf.as_str())
    }

    /// The document that stands for this configuration.
    pub fn to_json(&self) -> (r: JsonVal)
        ensures
            r@ == config_json(self.metadata_path@, self.autobackup_interval, self.vars_path@),
    {
        let mut fields: Vec<(String, JsonVal)> = Vec::new();
        fields.push(
            (String::from_str("metadata_path"), JsonVal::Str(self.metadata_path.clone())),
        );
        fields.push(
            (String::from_str("autobackup_interval"), JsonVal::Num(self.autobackup_interval)),
        );
        fields.push((String::from_str("vars_path"), JsonVal::Str(self.vars_path.clone())));
        let r = JsonVal::Obj(fields);
        proof {
            lemma_json_view_obj(fields@);
            assert(fields@.len() == 3);
            assert(json_view_obj(fields@) =~= config_json(
                self.metadata_path@,
                self.autobackup_interval,
                self.vars_path@,
            )->Obj_0);
        }
        r
    }

    /// Save config: writes the pretty text of this configuration to the
    /// default config path.
    pub fn save_config(&self) -> (r: Result<(), Error>)
        ensures
            r matches Err(e) ==> e@ is Io,
    {
        let path = match Config::config_path() {
            Ok(p) => p,
            Err(e) => {
                return Err(e);
            },
        };
        let json = self.to_json();
        let text = json_dump_pretty(&json);
        match fs_write_file(path.as_str(), text.as_str()) {
            Ok(()) => Ok(()),
            Err(m) => Err(Error::Io(m)),
        }
    }
}

/// Read metadata from config: hupas of the metadata file that the
/// configuration names; a file that cannot be read means no hupas.
pub fn read_metadata_from_config(config: &Config) -> (r: Result<Vec<Hupa>, Error>)
    ensures
        r matches Err(e) ==> e@ is InvalidMetadata,
{
    let buf = match fs_read_file(config.metadata_path.as_str()) {
        Ok(s) => s,
        Err(_) => {
            return Ok(Vec::new());
        },
    };
    crate::metadata::read_metadata(buf.as_str())
}

fn not_valid_json() -> (r: String)
    ensures
        r@ == "the text is not valid JSON"@,
{
    let mut s = String::new();
    s.append("the text is not valid JSON");
    s
}

} // verus!
