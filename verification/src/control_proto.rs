//! Wire shapes of the control protocol and the conversion of renderer
//! setting definitions into them.

use vstd::prelude::*;

use crate::text::{i64_text, int_text};

verus! {

/// Sort key of a wallpaper list request.
#[derive(Debug, Clone, Copy, PartialEq, Eq, Structural)]
pub enum WallpaperSortKey {
    Unspecified,
    Name,
    WpType,
    Size,
    LastModified,
}

/// The sort key a wire number stands for, if any.
pub open spec fn sort_key_of_wire(v: i32) -> Option<WallpaperSortKey> {
    if v == 0 {
        Some(WallpaperSortKey::Unspecified)
    } else if v == 1 {
        Some(WallpaperSortKey::Name)
    } else if v == 2 {
        Some(WallpaperSortKey::WpType)
    } else if v == 3 {
        Some(WallpaperSortKey::Size)
    } else if v == 4 {
        Some(WallpaperSortKey::LastModified)
    } else {
        None
    }
}

impl WallpaperSortKey {
    /// The wire number of this key.
    pub open spec fn wire(self) -> i32 {
        match self {
            WallpaperSortKey::Unspecified => 0,
            WallpaperSortKey::Name => 1,
            WallpaperSortKey::WpType => 2,
            WallpaperSortKey::Size => 3,
            WallpaperSortKey::LastModified => 4,
        }
    }

    /// The wire number of this key.
    pub fn to_wire(&self) -> (r: i32)
        ensures
            r == self.wire(),
            sort_key_of_wire(r) == Some(*self),
    {
        match self {
            WallpaperSortKey::Unspecified => 0,
            WallpaperSortKey::Name => 1,
            WallpaperSortKey::WpType => 2,
            WallpaperSortKey::Size => 3,
            WallpaperSortKey::LastModified => 4,
        }
    }

    /// Decodes a wire number; `None` for numbers this protocol does not know.
    pub fn from_wire(v: i32) -> (r: Option<WallpaperSortKey>)
        ensures
            r == sort_key_of_wire(v),
    {
        if v == 0 {
            Some(WallpaperSortKey::Unspecified)
        } else if v == 1 {
            Some(WallpaperSortKey::Name)
        } else if v == 2 {
            Some(WallpaperSortKey::WpType)
        } else if v == 3 {
            Some(WallpaperSortKey::Size)
        } else if v == 4 {
            Some(WallpaperSortKey::LastModified)
        } else {
            None
        }
    }
}

/// Direction of a sort rule.
#[derive(Debug, Clone, Copy, PartialEq, Eq, Structural)]
pub enum SortDirection {
    Asc,
    Desc,
}

/// The direction a wire number stands for, if any.
pub open spec fn direction_of_wire(v: i32) -> Option<SortDirection> {
    if v == 0 {
        Some(SortDirection::Asc)
    } else if v == 1 {
        Some(SortDirection::Desc)
    } else {
        None
    }
}

impl SortDirection {
    /// The wire number of this direction.
    pub fn to_wire(&self) -> (r: i32)
        ensures
            direction_of_wire(r) == Some(*self),
    {
        match self {
            SortDirection::Asc => 0,
            SortDirection::Desc => 1,
        }
    }

    /// Decodes a wire number; `None` for numbers this protocol does not know.
    pub fn from_wire(v: i32) -> (r: Option<SortDirection>)
        ensures
            r == direction_of_wire(v),
    {
        if v == 0 {
            Some(SortDirection::Asc)
        } else if v == 1 {
            Some(SortDirection::Desc)
        } else {
            None
        }
    }
}

/// One rule of a composite wallpaper sort, as it comes over the wire.
#[derive(Debug, Clone, Copy, PartialEq, Eq, Structural)]
pub struct WallpaperSortRule {
    pub key: i32,
    pub direction: i32,
}


/// The scalar type of a renderer setting, as a plugin manifest declares it.
#[derive(Debug, Clone, Copy, PartialEq, Eq, Structural)]
pub enum SettingType {
    U32,
    I32,
    F32,
    String,
    Bool,
}

/// The wire number of a setting type: 0 is unspecified, then u32, i32,
/// f32, string and bool are 1 to 5.
pub open spec fn setting_type_wire(ty: SettingType) -> i32 {
    match ty {
        SettingType::U32 => 1,
        SettingType::I32 => 2,
        SettingType::F32 => 3,
        SettingType::String => 4,
        SettingType::Bool => 5,
    }
}

/// Converts a setting type to its wire number.
pub fn setting_type_to_proto(ty: SettingType) -> (r: i32)
    ensures
        r == setting_type_wire(ty),
{
    match ty {
        SettingType::U32 => 1,
        SettingType::I32 => 2,
        SettingType::F32 => 3,
        SettingType::String => 4,
        SettingType::Bool => 5,
    }
}

/// A TOML value of a setting manifest, as far as its wire text is
/// concerned. Strings, integers and booleans are held as such; any other
/// value (a float, a date-time, an array or a table) is held as the text
/// that is sent for it, rendered where the TOML value is read.
#[derive(Debug, Clone)]
pub enum SettingValue {
    String(String),
    Integer(i64),
    Boolean(bool),
    Rendered(String),
}

/// The wire text of a setting value: a string as itself, an integer in
/// decimal, a boolean as "true" or "false", anything else as rendered.
pub open spec fn wire_text(v: SettingValue) -> Seq<char> {
    match v {
        SettingValue::String(s) => s@,
        SettingValue::Integer(i) => int_text(i as int),
        SettingValue::Boolean(b) => if b { "true"@ } else { "false"@ },
        SettingValue::Rendered(s) => s@,
    }
}

/// The wire text of an optional value: empty when absent.
pub open spec fn optional_wire_text(v: Option<SettingValue>) -> Seq<char> {
    match v {
        Some(x) => wire_text(x),
        None => Seq::empty(),
    }
}

/// The text of an optional string: empty when absent.
pub open spec fn optional_text(s: Option<String>) -> Seq<char> {
    match s {
        Some(x) => x@,
        None => Seq::empty(),
    }
}

/// Stringifies a setting value for the wire `default_value`, `min`, `max`
/// and `step` fields.
pub fn toml_value_to_wire(v: &SettingValue) -> (r: String)
    ensures
        r@ == wire_text(*v),
{
    match v {
        SettingValue::String(s) => s.clone(),
        SettingValue::Integer(i) => i64_text(*i),
        SettingValue::Boolean(b) => if *b {
            String::from_str("true")
        } else {
            String::from_str("false")
        },
        SettingValue::Rendered(s) => s.clone(),
    }
}

/// The wire text of an optional value: empty when absent.
fn optional_to_wire(v: &Option<SettingValue>) -> (r: String)
    ensures
        r@ == optional_wire_text(*v),
{
    match v {
        Some(x) => toml_value_to_wire(x),
        None => String::new(),
    }
}

/// The text of an optional string: empty when absent.
fn optional_string(s: &Option<String>) -> (r: String)
    ensures
        r@ == optional_text(*s),
{
    match s {
        Some(x) => x.clone(),
        None => String::new(),
    }
}

/// One renderer setting as a plugin manifest declares it.
#[derive(Debug, Clone)]
pub struct SettingDef {
    pub ty: SettingType,
    pub default: SettingValue,
    pub identity: bool,
    pub label_key: Option<String>,
    pub description_key: Option<String>,
    pub min: Option<SettingValue>,
    pub max: Option<SettingValue>,
    pub step: Option<SettingValue>,
    pub choices: Option<Vec<String>>,
    pub group: Option<String>,
    pub order: Option<i32>,
}

/// One renderer setting as the control protocol sends it.
#[derive(Debug, Clone)]
pub struct SettingSchema {
    pub key: String,
    pub setting_type: i32,
    pub default_value: String,
    pub identity: bool,
    pub label_key: String,
    pub description_key: String,
    pub min: String,
    pub max: String,
    pub step: String,
    pub choices: Vec<String>,
    pub group: String,
    pub order: i32,
}

/// The texts of a list of strings.
pub open spec fn texts_of(v: Seq<String>) -> Seq<Seq<char>> {
    v.map_values(|s: String| s@)
}

/// Converts one manifest setting definition into the schema sent to the
/// user interface. Absent optional texts become empty, absent choices an
/// empty list, and an absent order 0.
pub fn setting_def_to_proto(key: &str, def: &SettingDef) -> (r: SettingSchema)
    ensures
        r.key@ == key@,
        r.setting_type == setting_type_wire(def.ty),
        r.default_value@ == wire_text(def.default),
        r.identity == def.identity,
        r.label_key@ == optional_text(def.label_key),
        r.description_key@ == optional_text(def.description_key),
        r.min@ == optional_wire_text(def.min),
        r.max@ == optional_wire_text(def.max),
        r.step@ == optional_wire_text(def.step),
        texts_of(r.choices@) == match def.choices {
            Some(c) => texts_of(c@),
            None => Seq::<Seq<char>>::empty(),
        },
        r.group@ == optional_text(def.group),
        r.order == match def.order {
            Some(o) => o,
            None => 0,
        },
{
    let choices: Vec<String> = match &def.choices {
        Some(c) => c.clone(),
        None => Vec::new(),
    };
    proof {
        match &def.choices {
            Some(c) => {
                assert(texts_of(choices@) =~= texts_of(c@));
            },
            None => {
                assert(texts_of(choices@) =~= Seq::<Seq<char>>::empty());
            },
        }
    }
    SettingSchema {
        key: key.to_owned(),
        setting_type: setting_type_to_proto(def.ty),
        default_value: toml_value_to_wire(&def.default),
        identity: def.identity,
        label_key: optional_string(&def.label_key),
        description_key: optional_string(&def.description_key),
        min: optional_to_wire(&def.min),
        max: optional_to_wire(&def.max),
        step: optional_to_wire(&def.step),
        choices: choices,
        group: optional_string(&def.group),
        order: match def.order {
            Some(o) => o,
            None => 0,
        },
    }
}

} // verus!
