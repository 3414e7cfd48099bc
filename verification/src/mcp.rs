//! What a tool server needs besides its tools: who it is, what a call
//! returns, and how a call's arguments are read.
//!
//! The wire (newline-delimited JSON-RPC on stdio) is the caller's. A call's
//! arguments arrive here as `Args`, one `Arg` per key, holding what the
//! JSON value was; the readers below decide what each one means.

use vstd::prelude::*;

use crate::text::{append_to, chars_of, split_chars, split_on, string_of, trim, trimmed};

verus! {

/// Who the server is, shown to the client when it connects.
#[derive(Debug)]
pub struct ServerInfo {
    pub name: String,
    pub version: String,
    /// Shown to the model as guidance on how to use this server.
    pub instructions: String,
}

/// The result of a successful tool call.
#[derive(Debug)]
pub struct ToolOutput {
    /// Human- or model-readable text. Structured data is JSON here.
    pub text: String,
}

impl ToolOutput {
    /// An output of plain text.
    pub fn text(text: String) -> (r: ToolOutput)
        ensures
            r.text@ == text@,
    {
        ToolOutput { text }
    }
}

/// The JSON type of a tool argument.
#[derive(Debug, Clone, Copy, PartialEq, Eq, Structural)]
pub enum ValueKind {
    Text,
    Integer,
    Boolean,
    /// An array of strings.
    TextList,
}

impl ValueKind {
    /// The JSON Schema `type` of an argument of this kind.
    pub fn json_type(&self) -> (r: &'static str)
        ensures
            r@ == match self {
                ValueKind::Text => "string"@,
                ValueKind::Integer => "integer"@,
                ValueKind::Boolean => "boolean"@,
                ValueKind::TextList => "array"@,
            },
    {
        match self {
            ValueKind::Text => "string",
            ValueKind::Integer => "integer",
            ValueKind::Boolean => "boolean",
            ValueKind::TextList => "array",
        }
    }
}

/// One argument a tool declares.
#[derive(Debug)]
pub struct Property {
    pub name: String,
    pub kind: ValueKind,
    /// Guidance for the model on what to pass.
    pub description: Option<String>,
    /// Whether a call must carry it.
    pub required: bool,
}

/// The names of the properties marked required, in order.
pub open spec fn required_names(ps: Seq<Property>) -> Seq<Seq<char>>
    decreases ps.len(),
{
    if ps.len() == 0 {
        Seq::empty()
    } else if ps.last().required {
        required_names(ps.drop_last()).push(ps.last().name@)
    } else {
        required_names(ps.drop_last())
    }
}

impl Property {
    pub fn new(name: &str, kind: ValueKind, description: Option<&str>, required: bool) -> (r: Property)
        ensures
            r.name@ == name@,
            r.kind == kind,
            r.description.deep_view() == match description {
                Some(d) => Some(d@),
                None => None::<Seq<char>>,
            },
            r.required == required,
    {
        let description = match description {
            Some(d) => Some(d.to_owned()),
            None => None,
        };
        Property { name: name.to_owned(), kind, description, required }
    }
}

/// The arguments of a tool: a JSON Schema object with these properties.
#[derive(Debug)]
pub struct ObjectSchema {
    pub properties: Vec<Property>,
}

impl ObjectSchema {
    pub fn new(properties: Vec<Property>) -> (r: ObjectSchema)
        ensures
            r.properties@ == properties@,
    {
        ObjectSchema { properties }
    }

    /// The JSON Schema `type` of a tool's arguments, which is always an object.
    pub fn json_type(&self) -> (r: &'static str)
        ensures
            r@ == "object"@,
    {
        "object"
    }

    /// The schema's `required` list: the names of the properties a call
    /// must carry, in order.
    pub fn required(&self) -> (r: Vec<String>)
        ensures
            r.deep_view() == required_names(self.properties@),
    {
        let mut required: Vec<String> = Vec::new();
        let mut i: usize = 0;
        while i < self.properties.len()
            invariant
                i <= self.properties@.len(),
                required.deep_view() == required_names(self.properties@.take(i as int)),
            decreases self.properties@.len() - i,
        {
            proof {
                assert(self.properties@.take(i + 1).drop_last() =~= self.properties@.take(i as int));
            }
            if self.properties[i].required {
                required.push(self.properties[i].name.clone());
            }
            i = i + 1;
        }
        proof {
            assert(self.properties@.take(i as int) =~= self.properties@);
        }
        required
    }
}

/// A tool as a client lists it.
#[derive(Debug)]
pub struct Tool {
    pub name: String,
    pub description: String,
    /// JSON Schema for the tool's arguments.
    pub input_schema: ObjectSchema,
}

impl Tool {
    pub fn new(name: &str, description: &str, input_schema: ObjectSchema) -> (r: Tool)
        ensures
            r.name@ == name@,
            r.description@ == description@,
            r.input_schema == input_schema,
    {
        Tool { name: name.to_owned(), description: description.to_owned(), input_schema }
    }
}

/// One argument, as the JSON value under its key was.
#[derive(Debug)]
pub enum Arg {
    /// No such key.
    Absent,
    Null,
    Bool(bool),
    /// A number: its value where it is a whole number that fits a `u64`.
    Number(Option<u64>),
    Text(String),
    /// An array: each item's text where the item is a string.
    List(Vec<Option<String>>),
    /// An object.
    Other,
}

pub enum ArgView {
    Absent,
    Null,
    Bool(bool),
    Number(Option<u64>),
    Text(Seq<char>),
    List(Seq<Option<Seq<char>>>),
    Other,
}

impl View for Arg {
    type V = ArgView;

    open spec fn view(&self) -> ArgView {
        match self {
            Arg::Absent => ArgView::Absent,
            Arg::Null => ArgView::Null,
            Arg::Bool(b) => ArgView::Bool(*b),
            Arg::Number(n) => ArgView::Number(*n),
            Arg::Text(t) => ArgView::Text(t@),
            Arg::List(items) => ArgView::List(items.deep_view()),
            Arg::Other => ArgView::Other,
        }
    }
}

/// A call's arguments: each key with its value.
#[derive(Debug)]
pub struct Args {
    pub fields: Vec<(String, Arg)>,
}

pub open spec fn field_views(fields: Seq<(String, Arg)>) -> Seq<(Seq<char>, ArgView)> {
    fields.map_values(|f: (String, Arg)| (f.0@, f.1@))
}

impl View for Args {
    type V = Seq<(Seq<char>, ArgView)>;

    open spec fn view(&self) -> Seq<(Seq<char>, ArgView)> {
        field_views(self.fields@)
    }
}

/// The value under `key`, the first where a key repeats.
pub open spec fn arg_from(fields: Seq<(Seq<char>, ArgView)>, key: Seq<char>, i: int) -> ArgView
    decreases fields.len() - i,
{
    if i < 0 || i >= fields.len() {
        ArgView::Absent
    } else if fields[i].0 == key {
        fields[i].1
    } else {
        arg_from(fields, key, i + 1)
    }
}

pub open spec fn arg_of(args: Seq<(Seq<char>, ArgView)>, key: Seq<char>) -> ArgView {
    arg_from(args, key, 0)
}

impl Args {
    /// Arguments with nothing in them.
    pub fn empty() -> (r: Args)
        ensures
            r@.len() == 0,
    {
        Args { fields: Vec::new() }
    }

    /// The value under `key`.
    pub fn get(&self, key: &str) -> (r: Option<&Arg>)
        ensures
            match r {
                Some(a) => a@ == arg_of(self@, key@),
                None => arg_of(self@, key@) == ArgView::Absent,
            },
    {
        let mut i: usize = 0;
        while i < self.fields.len()
            invariant
                i <= self.fields@.len(),
                arg_from(self@, key@, i as int) == arg_of(self@, key@),
            decreases self.fields@.len() - i,
        {
            if crate::text::str_eq(self.fields[i].0.as_str(), key) {
                return Some(&self.fields[i].1);
            }
            i = i + 1;
        }
        None
    }
}

/// "`key` " and the rest, as the errors name an argument.
pub open spec fn about(key: Seq<char>, rest: Seq<char>) -> Seq<char> {
    seq!['`'] + key + seq!['`'] + rest
}

fn about_text(key: &str, rest: &str) -> (r: String)
    ensures
        r@ == about(key@, rest@),
{
    let mut v: Vec<char> = Vec::new();
    v.push('`');
    let k = chars_of(key);
    append_to(&mut v, k.as_slice());
    v.push('`');
    let t = chars_of(rest);
    append_to(&mut v, t.as_slice());
    string_of(v.as_slice())
}

/// A required text argument, trimmed; blank, missing or another kind of
/// value is an error that says which.
pub open spec fn required_text(a: ArgView, key: Seq<char>) -> Result<Seq<char>, Seq<char>> {
    match a {
        ArgView::Text(v) => if trim(v).len() > 0 {
            Ok(trim(v))
        } else {
            Err(about(key, " must not be empty"@))
        },
        ArgView::Absent => Err(about(key, " is required"@)),
        _ => Err(about(key, " must be a string"@)),
    }
}

/// An optional text argument, trimmed, with a blank one taken as absent.
pub open spec fn optional_text(a: ArgView) -> Option<Seq<char>> {
    match a {
        ArgView::Text(v) => if trim(v).len() > 0 {
            Some(trim(v))
        } else {
            None
        },
        _ => None,
    }
}

pub open spec fn optional_bool(a: ArgView, default: bool) -> bool {
    match a {
        ArgView::Bool(b) => b,
        _ => default,
    }
}

pub open spec fn optional_count(a: ArgView, default: usize) -> usize {
    match a {
        ArgView::Number(Some(n)) => n as usize,
        _ => default,
    }
}

/// The non-blank strings of an array, trimmed.
pub open spec fn kept_items(items: Seq<Option<Seq<char>>>) -> Seq<Seq<char>>
    decreases items.len(),
{
    if items.len() == 0 {
        Seq::empty()
    } else {
        let rest = kept_items(items.drop_last());
        match items.last() {
            Some(t) => if trim(t).len() > 0 {
                rest.push(trim(t))
            } else {
                rest
            },
            None => rest,
        }
    }
}

/// The non-blank pieces, trimmed.
pub open spec fn kept_pieces(pieces: Seq<Seq<char>>) -> Seq<Seq<char>>
    decreases pieces.len(),
{
    if pieces.len() == 0 {
        Seq::empty()
    } else {
        let rest = kept_pieces(pieces.drop_last());
        if trim(pieces.last()).len() > 0 {
            rest.push(trim(pieces.last()))
        } else {
            rest
        }
    }
}

/// A list of strings: an array's non-blank strings, or a lone string taken
/// as a comma-separated list.
pub open spec fn text_list(a: ArgView) -> Seq<Seq<char>> {
    match a {
        ArgView::List(items) => kept_items(items),
        ArgView::Text(single) => kept_pieces(split_on(single, ',')),
        _ => Seq::empty(),
    }
}

/// Read a required text argument.
pub fn require_str(args: &Args, key: &str) -> (r: Result<String, String>)
    ensures
        match r {
            Ok(s) => required_text(arg_of(args@, key@), key@) == Ok::<Seq<char>, Seq<char>>(s@),
            Err(e) => required_text(arg_of(args@, key@), key@) == Err::<Seq<char>, Seq<char>>(e@),
        },
{
    match args.get(key) {
        Some(Arg::Text(v)) => {
            let t = trimmed(chars_of(v.as_str()).as_slice());
            if t.len() > 0 {
                Ok(string_of(t.as_slice()))
            } else {
                Err(about_text(key, " must not be empty"))
            }
        },
        Some(Arg::Absent) | None => Err(about_text(key, " is required")),
        Some(_) => Err(about_text(key, " must be a string")),
    }
}

/// Read an optional text argument.
pub fn opt_str(args: &Args, key: &str) -> (r: Option<String>)
    ensures
        r.deep_view() == optional_text(arg_of(args@, key@)),
{
    match args.get(key) {
        Some(Arg::Text(v)) => {
            let t = trimmed(chars_of(v.as_str()).as_slice());
            if t.len() > 0 {
                Some(string_of(t.as_slice()))
            } else {
                None
            }
        },
        _ => None,
    }
}

/// Read an optional flag.
pub fn opt_bool(args: &Args, key: &str, default: bool) -> (r: bool)
    ensures
        r == optional_bool(arg_of(args@, key@), default),
{
    match args.get(key) {
        Some(Arg::Bool(b)) => *b,
        _ => default,
    }
}

/// Read an optional count.
pub fn opt_usize(args: &Args, key: &str, default: usize) -> (r: usize)
    ensures
        r == optional_count(arg_of(args@, key@), default),
{
    match args.get(key) {
        Some(Arg::Number(Some(n))) => *n as usize,
        _ => default,
    }
}

fn kept_from_items(items: &Vec<Option<String>>) -> (r: Vec<String>)
    ensures
        r.deep_view() == kept_items(items.deep_view()),
{
    let ghost iv = items.deep_view();
    let mut out: Vec<String> = Vec::new();
    let mut i: usize = 0;
    while i < items.len()
        invariant
            i <= items@.len(),
            iv == items.deep_view(),
            out.deep_view() == kept_items(iv.take(i as int)),
        decreases items@.len() - i,
    {
        proof {
            assert(iv.take(i + 1).drop_last() =~= iv.take(i as int));
            assert(iv.take(i + 1).last() == iv[i as int]);
        }
        match &items[i] {
            Some(t) => {
                let c = trimmed(chars_of(t.as_str()).as_slice());
                if c.len() > 0 {
                    let ghost before = out.deep_view();
                    out.push(string_of(c.as_slice()));
                    proof {
                        assert(out.deep_view() =~= before.push(c@));
                    }
                }
            },
            None => {},
        }
        i = i + 1;
    }
    proof {
        assert(iv.take(i as int) =~= iv);
    }
    out
}

fn kept_from_pieces(pieces: &Vec<Vec<char>>, Ghost(ps): Ghost<Seq<Seq<char>>>) -> (r: Vec<String>)
    requires
        pieces@.len() == ps.len(),
        forall|k: int| 0 <= k < ps.len() ==> (#[trigger] pieces@[k])@ == ps[k],
    ensures
        r.deep_view() == kept_pieces(ps),
{
    let mut out: Vec<String> = Vec::new();
    let mut i: usize = 0;
    while i < pieces.len()
        invariant
            i <= pieces@.len(),
            pieces@.len() == ps.len(),
            forall|k: int| 0 <= k < ps.len() ==> (#[trigger] pieces@[k])@ == ps[k],
            out.deep_view() == kept_pieces(ps.take(i as int)),
        decreases pieces@.len() - i,
    {
        proof {
            assert(ps.take(i + 1).drop_last() =~= ps.take(i as int));
            assert(ps.take(i + 1).last() == ps[i as int]);
        }
        let c = trimmed(pieces[i].as_slice());
        if c.len() > 0 {
            let ghost before = out.deep_view();
            out.push(string_of(c.as_slice()));
            proof {
                assert(out.deep_view() =~= before.push(c@));
            }
        }
        i = i + 1;
    }
    proof {
        assert(ps.take(i as int) =~= ps);
    }
    out
}

/// Read a list of strings, accepting a lone string as a comma-separated list.
pub fn opt_str_list(args: &Args, key: &str) -> (r: Vec<String>)
    ensures
        r.deep_view() == text_list(arg_of(args@, key@)),
{
    match args.get(key) {
        Some(Arg::List(items)) => kept_from_items(items),
        Some(Arg::Text(single)) => {
            let v = chars_of(single.as_str());
            let pieces = split_chars(v.as_slice(), ',');
            kept_from_pieces(&pieces, Ghost(split_on(v@, ',')))
        },
        _ => Vec::new(),
    }
}

} // verus!
