//! Reading and writing the document tree as TOML text, through the `toml`
//! crate.
use vstd::prelude::*;

use crate::GobiError;
use crate::GobiResult;
use crate::file::DocValue;
use crate::file::TomlFile;
use crate::file::ValView;
use crate::file::wf_view;
use toml::Value as TomlValue;

verus! {

#[verifier::external_type_specification]
#[verifier::external_body]
pub struct ExTomlValue(toml::Value);

/// What parsing a given TOML text yields: the document tree, or the
/// parser's error text.
pub uninterp spec fn toml_doc(text: Seq<char>) -> Result<ValView, Seq<char>>;

/// Relies on toml::Value: each enum arm is moved to its document
/// counterpart, a float and a datetime as their text.
#[verifier::external_body]
fn toml_value_to_doc(v: &TomlValue) -> DocValue {
    match v {
        TomlValue::String(s) => DocValue::String(s.clone()),
        TomlValue::Integer(i) => DocValue::Integer(*i),
        TomlValue::Float(f) => DocValue::Float(f.to_string()),
        TomlValue::Boolean(b) => DocValue::Boolean(*b),
        TomlValue::Datetime(d) => DocValue::Unknown(d.to_string()),
        TomlValue::Array(items) => DocValue::Array(items.iter().map(toml_value_to_doc).collect()),
        TomlValue::Table(entries) => DocValue::Table(entries.iter().map(|(k, x)| (k.clone(), toml_value_to_doc(x))).collect()),
    }
}

/// Relies on toml::Table::from_str: parses a TOML document into a tree
/// whose tables have unique keys, as the format requires; the result
/// depends on the text alone.
#[verifier::external_body]
fn parse_toml_text(text: &str) -> (r: Result<DocValue, String>)
    ensures
        match r {
            Ok(dv) => toml_doc(text@) == Ok::<ValView, Seq<char>>(dv@) && wf_view(dv@),
            Err(m) => toml_doc(text@) == Err::<ValView, Seq<char>>(m@),
        },
{
    match text.parse::<toml::Table>() {
        Ok(t) => Ok(toml_value_to_doc(&TomlValue::Table(t))),
        Err(e) => Err(e.to_string()),
    }
}

/// The TOML text that rendering a given document tree yields, if any.
pub uninterp spec fn toml_text(v: ValView) -> Option<Seq<char>>;

/// Relies on toml::Value: each document arm is moved back to its toml
/// counterpart, text to a float or a datetime where it parses.
#[verifier::external_body]
fn doc_to_toml_value(v: &DocValue) -> TomlValue {
    match v {
        DocValue::String(s) => TomlValue::String(s.clone()),
        DocValue::Integer(i) => TomlValue::Integer(*i),
        DocValue::Float(text) => text.parse().map(TomlValue::Float).unwrap_or_else(|_| TomlValue::String(text.clone())),
        DocValue::Boolean(b) => TomlValue::Boolean(*b),
        DocValue::Array(items) => TomlValue::Array(items.iter().map(doc_to_toml_value).collect()),
        DocValue::Table(entries) => TomlValue::Table(entries.iter().map(|(k, x)| (k.clone(), doc_to_toml_value(x))).collect()),
        DocValue::Unknown(s) => s.parse().map(TomlValue::Datetime).unwrap_or_else(|_| TomlValue::String(s.clone())),
    }
}

/// Relies on toml::to_string: renders a value tree as TOML text; the result
/// depends on the tree alone.
#[verifier::external_body]
fn render_toml_text(v: &DocValue) -> (r: Option<String>)
    ensures
        match (r, toml_text(v@)) {
            (Some(s), Some(t)) => s@ == t,
            (None, None) => true,
            _ => false,
        },
{
    match toml::to_string(&doc_to_toml_value(v)) {
        Ok(s) => Some(s),
        Err(_) => None,
    }
}

impl TomlFile {
    /// A document parsed from TOML text, bound to the path it was read from.
    pub fn from_toml_str(path: String, text: &str) -> (r: GobiResult<TomlFile>)
        ensures
            match (r, toml_doc(text@)) {
                (Ok(f), Ok(v)) => f.data@ == v && f.path == path && wf_view(f.data@),
                (Err(e), Err(m)) => e.code == 1 && e.msg@ == m,
                _ => false,
            },
    {
        match parse_toml_text(text) {
            Ok(data) => Ok(TomlFile { path, data }),
            Err(msg) => Err(GobiError { code: 1, msg }),
        }
    }

    /// This document's tree as TOML text.
    pub fn to_toml_string(&self) -> (r: GobiResult<String>)
        ensures
            match (r, toml_text(self.data@)) {
                (Ok(s), Some(t)) => s@ == t,
                (Err(e), None) => e.code == 1 && e.msg@ == "Could not render the document as TOML"@,
                _ => false,
            },
    {
        match render_toml_text(&self.data) {
            Some(s) => Ok(s),
            None => Err(
                GobiError { code: 1, msg: "Could not render the document as TOML".to_owned() },
            ),
        }
    }
}

} // verus!
