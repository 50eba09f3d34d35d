//! Persisted forms shared by the stored documents: the schema version tag,
//! persisted pairs and key files, and the directory-layout names.
use vstd::prelude::*;

use crate::request::KeyValue;

pub mod request;

verus! {

pub const HCL_SUFFIX: &'static str = "hcl";
pub const HCL_EXTENSION: &'static str = ".hcl";
pub const JS_EXTENSION: &'static str = "js";
pub const TS_EXTENSION: &'static str = "ts";
pub const COLLECTION_ROOT_FILE: &'static str = "collection.hcl";
pub const ENVIRONMENTS: &'static str = "environments";
pub const SCRIPTS: &'static str = "scripts";
pub const REQUESTS: &'static str = "requests";

/// A persisted pair; `disabled` is omitted from the document when false.
#[derive(Debug, Clone)]
pub struct EncodedKeyValue {
    pub name: String,
    pub value: String,
    pub disabled: bool,
}

/// A persisted reference to a key file.
#[derive(Debug, Clone)]
pub struct EncodedKeyFile {
    pub name: String,
    pub path: Option<std::path::PathBuf>,
    pub disabled: bool,
}

impl From<KeyValue> for EncodedKeyValue {
    fn from(value: KeyValue) -> (r: Self) {
        EncodedKeyValue { name: value.name, value: value.value, disabled: value.disabled }
    }
}

impl vstd::std_specs::convert::FromSpecImpl<KeyValue> for EncodedKeyValue {
    open spec fn obeys_from_spec() -> bool {
        true
    }

    open spec fn from_spec(v: KeyValue) -> Self {
        EncodedKeyValue { name: v.name, value: v.value, disabled: v.disabled }
    }
}

impl From<EncodedKeyValue> for KeyValue {
    fn from(value: EncodedKeyValue) -> (r: Self) {
        KeyValue { name: value.name, value: value.value, disabled: value.disabled }
    }
}

impl vstd::std_specs::convert::FromSpecImpl<EncodedKeyValue> for KeyValue {
    open spec fn obeys_from_spec() -> bool {
        true
    }

    open spec fn from_spec(v: EncodedKeyValue) -> Self {
        KeyValue { name: v.name, value: v.value, disabled: v.disabled }
    }
}

/// Schema version of a persisted document.
#[derive(Debug, Clone, Copy, PartialEq, Eq, Structural, Default)]
pub enum Version {
    #[default]
    V1,
}

} // verus!
