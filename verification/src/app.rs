//! The records of the workspace's apps, as they are kept in a table.

use crate::infra::{timestamp, uuid};
use crate::wire::{lemma_parse_text_bytes, parse_text, text_bytes, text_fits};
use vstd::prelude::*;

verus! {

/// The colours of an app.
#[derive(Debug, PartialEq, Eq)]
pub struct ColorStyle {
    pub theme_color: String,
}

/// What is asked for when an app is made.
#[derive(Debug, PartialEq, Eq)]
pub struct CreateAppParams {
    pub workspace_id: String,
    pub name: String,
    pub desc: String,
    pub color_style: ColorStyle,
}

/// What is asked for when an app is changed: the app, and a new value for
/// each part that changes.
#[derive(Debug, PartialEq, Eq)]
pub struct UpdateAppParams {
    pub app_id: String,
    pub workspace_id: Option<String>,
    pub name: Option<String>,
    pub desc: Option<String>,
}

/// What is shown of an app.
#[derive(Debug, PartialEq, Eq)]
pub struct AppDetail {
    pub id: String,
    pub workspace_id: String,
    pub name: String,
    pub desc: String,
}

/// The colours of an app as the table holds them: one binary column.
#[derive(Debug, PartialEq, Eq)]
pub struct ColorStyleCol {
    pub theme_color: String,
}

/// One row of the app table.
#[derive(Debug, PartialEq, Eq)]
pub struct App {
    pub id: String,
    /// The workspace that the app belongs to.
    pub workspace_id: String,
    pub name: String,
    pub desc: String,
    pub color_style: ColorStyleCol,
    pub last_view_id: Option<String>,
    pub modified_time: i64,
    pub create_time: i64,
    pub version: i64,
}

/// The columns of one row of the app table that a change sets.
#[derive(Debug, PartialEq, Eq)]
pub struct AppChangeset {
    pub id: String,
    pub workspace_id: Option<String>,
    pub name: Option<String>,
    pub desc: Option<String>,
}

impl Clone for ColorStyleCol {
    fn clone(&self) -> (r: Self)
        ensures
            r == *self,
    {
        ColorStyleCol { theme_color: self.theme_color.clone() }
    }
}

impl Default for ColorStyleCol {
    /// The colours of an app that has none: an empty theme colour.
    fn default() -> (r: Self)
        ensures
            r.theme_color@ == Seq::<char>::empty(),
    {
        ColorStyleCol { theme_color: String::new() }
    }
}

impl Clone for App {
    fn clone(&self) -> (r: Self)
        ensures
            r == *self,
    {
        App {
            id: self.id.clone(),
            workspace_id: self.workspace_id.clone(),
            name: self.name.clone(),
            desc: self.desc.clone(),
            color_style: self.color_style.clone(),
            last_view_id: match &self.last_view_id {
                Some(id) => Some(id.clone()),
                None => None,
            },
            modified_time: self.modified_time,
            create_time: self.create_time,
            version: self.version,
        }
    }
}

impl Default for AppChangeset {
    /// The change that sets nothing, for the app with the empty id.
    fn default() -> (r: Self)
        ensures
            r.id@ == Seq::<char>::empty(),
            r.workspace_id is None,
            r.name is None,
            r.desc is None,
    {
        AppChangeset { id: String::new(), workspace_id: None, name: None, desc: None }
    }
}

impl From<ColorStyle> for ColorStyleCol {
    fn from(s: ColorStyle) -> (r: Self) {
        ColorStyleCol { theme_color: s.theme_color }
    }
}

impl vstd::std_specs::convert::FromSpecImpl<ColorStyle> for ColorStyleCol {
    open spec fn obeys_from_spec() -> bool {
        true
    }

    open spec fn from_spec(s: ColorStyle) -> Self {
        ColorStyleCol { theme_color: s.theme_color }
    }
}

impl From<App> for AppDetail {
    fn from(app: App) -> (r: Self) {
        AppDetail { id: app.id, workspace_id: app.workspace_id, name: app.name, desc: app.desc }
    }
}

impl vstd::std_specs::convert::FromSpecImpl<App> for AppDetail {
    open spec fn obeys_from_spec() -> bool {
        true
    }

    open spec fn from_spec(app: App) -> Self {
        AppDetail { id: app.id, workspace_id: app.workspace_id, name: app.name, desc: app.desc }
    }
}

/// `bincode::serialize` on a `String`, with the error written out by its
/// `Debug`. bincode writes a string as the length of its UTF-8 form in
/// eight bytes, least significant first, followed by the UTF-8 bytes. It
/// sets no limit on the size and writes into a vector, so it does not fail.
#[verifier::external_body]
fn serialize_text(text: &String) -> (r: Result<Vec<u8>, String>)
    ensures
        r is Ok,
        r matches Ok(bytes) ==> bytes@ == text_bytes(text@),
{
    match ::bincode::serialize(text) {
        Ok(bytes) => Ok(bytes),
        Err(e) => Err(format!("{:?}", e)),
    }
}

/// `bincode::deserialize` to a `String`, with the error written out by its
/// `Debug`. bincode reads a length from the first eight bytes, least
/// significant first, and then as many bytes as the length says, which have
/// to be valid UTF-8. Bytes behind them are let be. What the error says is
/// not stated.
#[verifier::external_body]
fn deserialize_text(bytes: &[u8]) -> (r: Result<String, String>)
    ensures
        match parse_text(bytes@) {
            Ok((text, _)) => r matches Ok(s) && s@ == text,
            Err(_) => r is Err,
        },
{
    match ::bincode::deserialize::<String>(bytes) {
        Ok(text) => Ok(text),
        Err(e) => Err(format!("{:?}", e)),
    }
}

impl ColorStyleCol {
    /// The bytes of the binary column: the theme colour as a length-prefixed
    /// text.
    pub fn to_bytes(&self) -> (r: Result<Vec<u8>, String>)
        ensures
            r matches Ok(bytes) && bytes@ == text_bytes(self.theme_color@),
    {
        serialize_text(&self.theme_color)
    }

    /// The colours that the bytes of a binary column stand for. Fails where
    /// the bytes do not start with a length-prefixed text.
    pub fn from_bytes(value: &[u8]) -> (r: Result<ColorStyleCol, String>)
        ensures
            match parse_text(value@) {
                Ok((text, _)) => r matches Ok(col) && col.theme_color@ == text,
                Err(_) => r is Err,
            },
    {
        match deserialize_text(value) {
            Ok(theme_color) => Ok(ColorStyleCol { theme_color }),
            Err(e) => Err(e),
        }
    }
}

/// The colours that were written to a binary column are read back from it,
/// whatever follows them.
pub proof fn lemma_color_style_round_trip(theme_color: Seq<char>, tail: Seq<u8>)
    requires
        text_fits(theme_color),
    ensures
        parse_text(text_bytes(theme_color) + tail) matches Ok((text, rest)) && text == theme_color
            && rest == tail,
{
    lemma_parse_text_bytes(theme_color, tail);
}

impl App {
    /// The row of a new app: a fresh id, the current time as the time of its
    /// making and of its last change, version zero, no view opened yet, and
    /// the rest as `params` say.
    pub fn new(params: CreateAppParams) -> (r: Self)
        ensures
            r.id@.len() == 36,
            r.workspace_id == params.workspace_id,
            r.name == params.name,
            r.desc == params.desc,
            r.color_style.theme_color == params.color_style.theme_color,
            r.last_view_id is None,
            r.modified_time == r.create_time,
            r.version == 0,
    {
        let app_id = uuid();
        let time = timestamp();
        App::with_identity(params, app_id, time)
    }

    /// The row of a new app with the id `id`, made at time `time`.
    pub fn with_identity(params: CreateAppParams, id: String, time: i64) -> (r: Self)
        ensures
            r == (App {
                id,
                workspace_id: params.workspace_id,
                name: params.name,
                desc: params.desc,
                color_style: ColorStyleCol { theme_color: params.color_style.theme_color },
                last_view_id: None,
                modified_time: time,
                create_time: time,
                version: 0,
            }),
    {
        App {
            id,
            workspace_id: params.workspace_id,
            name: params.name,
            desc: params.desc,
            color_style: ColorStyleCol::from(params.color_style),
            last_view_id: None,
            modified_time: time,
            create_time: time,
            version: 0,
        }
    }
}

impl AppChangeset {
    /// The change to the row of the app `params.app_id` that sets what
    /// `params` give a new value for, and nothing else.
    pub fn new(params: UpdateAppParams) -> (r: Self)
        ensures
            r == (AppChangeset {
                id: params.app_id,
                workspace_id: params.workspace_id,
                name: params.name,
                desc: params.desc,
            }),
    {
        AppChangeset {
            id: params.app_id,
            workspace_id: params.workspace_id,
            name: params.name,
            desc: params.desc,
        }
    }
}

impl<'a> TryFrom<&'a [u8]> for ColorStyleCol {
    type Error = String;

    /// The colours that the bytes of a binary column stand for, as
    /// `ColorStyleCol::from_bytes` reads them. Fails where the bytes do not
    /// start with a length-prefixed text.
    fn try_from(value: &'a [u8]) -> (r: Result<Self, String>)
        ensures
            match parse_text(value@) {
                Ok((text, _)) => r matches Ok(col) && col.theme_color@ == text,
                Err(_) => r is Err,
            },
    {
        ColorStyleCol::from_bytes(value)
    }
}

impl<'a> vstd::std_specs::convert::TryFromSpecImpl<&'a [u8]> for ColorStyleCol {
    /// No one value is named as the result: what the error says is not
    /// stated. What comes back is stated by `try_from` itself.
    open spec fn obeys_try_from_spec() -> bool {
        false
    }

    open spec fn try_from_spec(value: &'a [u8]) -> Result<Self, String> {
        arbitrary()
    }
}

impl<'a> TryInto<Vec<u8>> for &'a ColorStyleCol {
    type Error = String;

    /// The bytes of the binary column, as `ColorStyleCol::to_bytes` writes
    /// them: the theme colour as a length-prefixed text. Does not fail.
    fn try_into(self) -> (r: Result<Vec<u8>, String>)
        ensures
            r is Ok,
            r matches Ok::<Vec<u8>, String>(bytes) ==> bytes@ == text_bytes(self.theme_color@),
    {
        self.to_bytes()
    }
}

impl<'a> vstd::std_specs::convert::TryIntoSpecImpl<Vec<u8>> for &'a ColorStyleCol {
    /// No one value is named as the result: a vector is known by what it
    /// holds. What comes back is stated by `try_into` itself.
    open spec fn obeys_try_into_spec() -> bool {
        false
    }

    open spec fn try_into_spec(self) -> Result<Vec<u8>, String> {
        arbitrary()
    }
}

} // verus!
