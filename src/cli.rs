//! The options of the text commands and the data formats, as plain values.
use crate::encoding::{lowercase, same_text, trim, lowercased, trimmed, Base64Charset};
use vstd::prelude::*;

verus! {

/// What the text command does.
#[derive(Debug, Clone)]
pub struct TextOpts {
    pub action: TextAction,
}

/// The text command's sub-commands.
#[derive(Debug, Clone)]
pub enum TextAction {
    Encrypt(SubCommandOpt),
    Decrypt(SubCommandOpt),
    GenerateKey(SubCommandOpt),
}

/// Options shared by the text sub-commands.
#[derive(Debug, Clone)]
pub struct SubCommandOpt {
    /// How the input text is encoded.
    pub in_format: Base64Charset,
    /// How the output is encoded.
    pub out_format: Base64Charset,
    /// Where the output goes; standard output when absent.
    pub output: Option<String>,
    /// The key, or the path of a file that holds it.
    pub key: String,
    /// The input, or the path of a file that holds it; standard input when absent.
    pub content: Option<String>,
}

/// Formats of the data that a token can carry.
#[derive(Debug, Clone, Copy, PartialEq, Eq, Structural)]
pub enum DataFormat {
    Json,
    Yaml,
    Toml,
    Text,
}

/// The data format that a normalized (trimmed, lowercase) name stands for.
pub open spec fn format_named(name: Seq<char>) -> Option<DataFormat> {
    if name == "json"@ {
        Some(DataFormat::Json)
    } else if name == "yaml"@ {
        Some(DataFormat::Yaml)
    } else if name == "toml"@ {
        Some(DataFormat::Toml)
    } else if name == "text"@ {
        Some(DataFormat::Text)
    } else {
        None
    }
}

impl DataFormat {
    /// The data format named exactly `name`.
    pub fn from_name(name: &str) -> (r: Option<DataFormat>)
        ensures
            r == format_named(name@),
    {
        if same_text(name, "json") {
            Some(DataFormat::Json)
        } else if same_text(name, "yaml") {
            Some(DataFormat::Yaml)
        } else if same_text(name, "toml") {
            Some(DataFormat::Toml)
        } else if same_text(name, "text") {
            Some(DataFormat::Text)
        } else {
            None
        }
    }

    /// Parses a data format name, ignoring surrounding whitespace and case.
    pub fn parse(s: &str) -> (r: Option<DataFormat>)
        ensures
            r == format_named(lowercased(trimmed(s@))),
    {
        let name = lowercase(trim(s));
        DataFormat::from_name(name.as_str())
    }

    /// The name that `parse` reads back as this format.
    pub fn name(&self) -> (r: &'static str)
        ensures
            format_named(r@) == Some(*self),
    {
        let r = match self {
            DataFormat::Json => "json",
            DataFormat::Yaml => "yaml",
            DataFormat::Toml => "toml",
            DataFormat::Text => "text",
        };
        proof {
            reveal_strlit("json");
            reveal_strlit("yaml");
            reveal_strlit("toml");
            reveal_strlit("text");
            // the names differ in their first or second character
            assert("json"@[0] == 'j' && "yaml"@[0] == 'y' && "toml"@[0] == 't' && "text"@[1] == 'e' && "toml"@[1] == 'o');
        }
        r
    }
}

/// A name that matches no data format.
#[derive(Debug, Clone, Copy, PartialEq, Eq, Structural)]
pub struct UnknownDataFormat;

impl std::str::FromStr for DataFormat {
    type Err = UnknownDataFormat;

    fn from_str(s: &str) -> Result<DataFormat, UnknownDataFormat> {
        match DataFormat::parse(s) {
            Some(f) => Ok(f),
            None => Err(UnknownDataFormat),
        }
    }
}

} // verus!
