//! JSON documents: the values the crate decodes metadata from, and the parser
//! that produces them.

use vstd::prelude::*;
use rustc_serialize::json::Json;
use vstd::utf8::encode_utf8;
use crate::text::view_of;

verus! {

/// A JSON value as the contracts speak of it.
pub enum JsonModel {
    Null,
    Boolean(bool),
    Signed(i64),
    Unsigned(u64),
    /// A number with a fraction or an exponent. Nothing here reads its value.
    Float,
    Text(Seq<char>),
    Array(Seq<JsonModel>),
    /// The members of an object, each key once, ordered by key.
    Object(Seq<(Seq<char>, JsonModel)>),
}

/// A JSON value.
#[derive(Debug)]
pub enum JsonValue {
    Null,
    Boolean(bool),
    Signed(i64),
    Unsigned(u64),
    /// A number with a fraction or an exponent. Nothing here reads its value.
    Float,
    Text(String),
    Array(Vec<JsonValue>),
    /// The members of an object, each key once, ordered by key.
    Object(Vec<(String, JsonValue)>),
}

/// The value that `value` stands for.
pub open spec fn model_of(value: JsonValue) -> JsonModel
    decreases value,
{
    match value {
        JsonValue::Null => JsonModel::Null,
        JsonValue::Boolean(b) => JsonModel::Boolean(b),
        JsonValue::Signed(n) => JsonModel::Signed(n),
        JsonValue::Unsigned(n) => JsonModel::Unsigned(n),
        JsonValue::Float => JsonModel::Float,
        JsonValue::Text(s) => JsonModel::Text(s@),
        JsonValue::Array(items) => JsonModel::Array(
            Seq::new(
                items@.len(),
                |i: int|
                    if 0 <= i < items@.len() {
                        model_of(items@[i])
                    } else {
                        JsonModel::Null
                    },
            ),
        ),
        JsonValue::Object(members) => JsonModel::Object(
            Seq::new(
                members@.len(),
                |i: int|
                    if 0 <= i < members@.len() {
                        (members@[i].0@, model_of(members@[i].1))
                    } else {
                        (Seq::empty(), JsonModel::Null)
                    },
            ),
        ),
    }
}

impl View for JsonValue {
    type V = JsonModel;

    open spec fn view(&self) -> JsonModel {
        model_of(*self)
    }
}

/// The value of the first member of `members` whose key is `key`.
pub open spec fn lookup(members: Seq<(Seq<char>, JsonModel)>, key: Seq<char>) -> Option<JsonModel>
    decreases members.len(),
{
    if members.len() == 0 {
        None
    } else if members[0].0 == key {
        Some(members[0].1)
    } else {
        lookup(members.drop_first(), key)
    }
}

/// The member `key` of an object; nothing for any other value.
pub open spec fn member(value: JsonModel, key: Seq<char>) -> Option<JsonModel> {
    match value {
        JsonModel::Object(members) => lookup(members, key),
        _ => None,
    }
}

/// The member `key` where it is a string.
pub open spec fn text_member(value: JsonModel, key: Seq<char>) -> Option<Seq<char>> {
    match member(value, key) {
        Some(JsonModel::Text(s)) => Some(s),
        _ => None,
    }
}

/// The member `key` where it is an array.
pub open spec fn array_member(value: JsonModel, key: Seq<char>) -> Option<Seq<JsonModel>> {
    match member(value, key) {
        Some(JsonModel::Array(items)) => Some(items),
        _ => None,
    }
}

/// The views of a run of values.
pub open spec fn models(items: Seq<JsonValue>) -> Seq<JsonModel> {
    Seq::new(items.len(), |i: int| items[i]@)
}

/// The views of the members of an object.
pub open spec fn member_models(members: Seq<(String, JsonValue)>) -> Seq<(Seq<char>, JsonModel)> {
    Seq::new(members.len(), |i: int| (members[i].0@, members[i].1@))
}

/// The view of an array is made of the views of its items.
pub proof fn lemma_array_view(items: Vec<JsonValue>)
    ensures
        JsonValue::Array(items)@ == JsonModel::Array(models(items@)),
{
    assert(JsonValue::Array(items)@->Array_0 =~= models(items@));
}

/// The view of an object is made of its keys and the views of their values.
pub proof fn lemma_object_view(members: Vec<(String, JsonValue)>)
    ensures
        JsonValue::Object(members)@ == JsonModel::Object(member_models(members@)),
{
    assert(JsonValue::Object(members)@->Object_0 =~= member_models(members@));
}

impl JsonValue {
    /// The member `key` of an object.
    pub fn find(&self, key: &str) -> (found: Option<&JsonValue>)
        ensures
            match found {
                Some(value) => member(self@, key@) == Some(value@),
                None => member(self@, key@) is None,
            },
    {
        match self {
            JsonValue::Object(members) => {
                let wanted = String::from_str(key);
                let ghost all = member_models(members@);
                let mut i: usize = 0;
                proof {
                    lemma_object_view(*members);
                    assert(all.skip(0) == all);
                }
                while i < members.len()
                    invariant
                        i <= members@.len(),
                        self@ == JsonModel::Object(all),
                        all.len() == members@.len(),
                        forall|k: int|
                            0 <= k < all.len() ==> all[k] == (
                                #[trigger] members@[k].0@,
                                members@[k].1@,
                            ),
                        wanted@ == key@,
                        lookup(all, key@) == lookup(all.skip(i as int), key@),
                    decreases members@.len() - i,
                {
                    proof {
                        assert(all.skip(i as int).drop_first() == all.skip(i + 1));
                        assert(all.skip(i as int)[0] == all[i as int]);
                        assert(all[i as int] == (members@[i as int].0@, members@[i as int].1@));
                    }
                    if members[i].0 == wanted {
                        return Some(&members[i].1);
                    }
                    i = i + 1;
                }
                None
            },
            _ => None,
        }
    }

    /// The member `key` of an object where it is a string.
    pub fn find_text(&self, key: &str) -> (found: Option<&String>)
        ensures
            match found {
                Some(s) => text_member(self@, key@) == Some(s@),
                None => text_member(self@, key@) is None,
            },
    {
        match self.find(key) {
            Some(JsonValue::Text(s)) => Some(s),
            _ => None,
        }
    }

    /// The member `key` of an object where it is an array.
    pub fn find_array(&self, key: &str) -> (found: Option<&Vec<JsonValue>>)
        ensures
            match found {
                Some(items) => array_member(self@, key@) == Some(models(items@)),
                None => array_member(self@, key@) is None,
            },
    {
        match self.find(key) {
            Some(JsonValue::Array(items)) => {
                proof {
                    lemma_array_view(*items);
                }
                Some(items)
            },
            _ => None,
        }
    }
}

/// Declares the JSON value of `rustc_serialize`.
#[verifier::external_type_specification]
#[verifier::external_body]
pub struct ExJson(rustc_serialize::json::Json);

/// The value that `Json::from_str` builds from `text`; nothing where it
/// reports an error.
pub uninterp spec fn json_document(text: Seq<char>) -> Option<JsonModel>;

/// What a `Json` holds.
pub uninterp spec fn json_content(json: Json) -> JsonModel;

/// `Json::from_str` of `rustc_serialize`. The value it builds, or the fact
/// that it reports an error, depends on the text alone. It can panic where an
/// object ends in a comma, as in `[{"k": {"a": 1,}, 7]`: it then loses track
/// of which value is open. Four more things in it can fail on a large
/// document. `within_limits` leaves all such documents out:
/// - it adds up the digits of an exponent in a machine word, which nine
///   digits cannot overflow;
/// - it builds nested values by calling itself, once per level;
/// - it keeps the keys of the open objects in one buffer and holds the start
///   and the length of each in 16 bits: at most 128 keys are open at once,
///   one per level, and 128 keys of at most 511 bytes take 65,408 bytes;
/// - it counts the items of an array in 32 bits, and a document of fewer
///   than 2^32 bytes has fewer items than that.
#[verifier::external_body]
fn json_from_str(text: &str) -> (parsed: Option<Json>)
    requires
        within_limits(text@),
    ensures
        match parsed {
            Some(json) => json_document(text@) == Some(json_content(json)),
            None => json_document(text@) is None,
        },
{
    Json::from_str(text).ok()
}

/// Hands out what a `Json` of `rustc_serialize` holds, variant by variant:
/// the members of an object come in the order of its map, which is the order
/// of the keys.
#[verifier::external_body]
fn json_value(json: &Json) -> (value: JsonValue)
    ensures
        value@ == json_content(*json),
{
    match json {
        Json::I64(n) => JsonValue::Signed(*n),
        Json::U64(n) => JsonValue::Unsigned(*n),
        Json::F64(_) => JsonValue::Float,
        Json::String(s) => JsonValue::Text(s.clone()),
        Json::Boolean(b) => JsonValue::Boolean(*b),
        Json::Array(items) => JsonValue::Array(items.iter().map(json_value).collect()),
        Json::Object(map) => JsonValue::Object(
            map.iter().map(|(k, v)| (k.clone(), json_value(v))).collect(),
        ),
        Json::Null => JsonValue::Null,
    }
}

/// The longest exponent, in digits, that a document may hold.
pub const MAX_EXPONENT_DIGITS: u8 = 9;

/// How deep the arrays and objects of a document may be nested.
pub const MAX_DEPTH: u8 = 128;

/// The longest key, in bytes between its quotes, that a document may hold.
pub const MAX_KEY_BYTES: u16 = 511;

/// The longest document, in bytes.
pub const MAX_DOCUMENT_BYTES: usize = 0xffff_ffff;

/// Where a scan of a document stands: inside a string literal or not, how
/// many arrays and objects are open, how long the string literal that it
/// reads or has read last is, and how many digits of an exponent it has just
/// read.
#[derive(Clone, Copy, Debug)]
pub struct Lexer {
    pub in_string: bool,
    pub escaped: bool,
    pub in_exponent: bool,
    pub digits: u8,
    pub depth: u8,
    /// The bytes between the quotes of the last string literal, counted up
    /// to one more than the longest key.
    pub literal: u16,
    /// Whether the last byte that was no white space was a comma.
    pub after_comma: bool,
    /// Whether a limit was passed. A scan that has passed one stays as it is.
    pub refused: bool,
}

/// The scan before the first byte.
pub open spec fn lexer_start() -> Lexer {
    Lexer {
        in_string: false,
        escaped: false,
        in_exponent: false,
        digits: 0,
        depth: 0,
        literal: 0,
        after_comma: false,
        refused: false,
    }
}

/// Whether a byte is white space between the parts of a document.
pub open spec fn is_space(byte: u8) -> bool {
    byte == 0x20 || byte == 0x0a || byte == 0x09 || byte == 0x0d
}

/// The length of a string literal after one more byte.
pub open spec fn grown(literal: u16) -> u16 {
    if literal > MAX_KEY_BYTES {
        literal
    } else {
        (literal + 1) as u16
    }
}

/// The scan after one more byte. Inside a string literal every byte but the
/// closing quote is counted, and a backslash takes the byte after it along.
/// Outside, white space is passed over, a colon ends a key, a bracket or brace
/// opens or closes a level, a closing brace may not follow a comma, `e` or
/// `E` starts an exponent, a sign may follow it, and each digit after that is
/// counted.
pub open spec fn lexer_step(lexer: Lexer, byte: u8) -> Lexer {
    if lexer.refused {
        lexer
    } else if lexer.in_string {
        if lexer.escaped {
            Lexer { escaped: false, literal: grown(lexer.literal), ..lexer }
        } else if byte == 0x5c {
            Lexer { escaped: true, literal: grown(lexer.literal), ..lexer }
        } else if byte == 0x22 {
            Lexer { in_string: false, ..lexer }
        } else {
            Lexer { literal: grown(lexer.literal), ..lexer }
        }
    } else if is_space(byte) {
        Lexer { in_exponent: false, digits: 0, ..lexer }
    } else if byte == 0x22 {
        Lexer {
            in_string: true,
            escaped: false,
            in_exponent: false,
            digits: 0,
            literal: 0,
            after_comma: false,
            ..lexer
        }
    } else if byte == 0x2c {
        Lexer { after_comma: true, in_exponent: false, digits: 0, ..lexer }
    } else if byte == 0x7d && lexer.after_comma {
        Lexer { refused: true, ..lexer }
    } else if byte == 0x3a && lexer.literal > MAX_KEY_BYTES {
        Lexer { refused: true, ..lexer }
    } else if byte == 0x5b || byte == 0x7b {
        if lexer.depth >= MAX_DEPTH {
            Lexer { refused: true, ..lexer }
        } else {
            Lexer {
                depth: (lexer.depth + 1) as u8,
                in_exponent: false,
                digits: 0,
                after_comma: false,
                ..lexer
            }
        }
    } else if byte == 0x5d || byte == 0x7d {
        Lexer {
            depth: if lexer.depth > 0 {
                (lexer.depth - 1) as u8
            } else {
                0
            },
            in_exponent: false,
            digits: 0,
            after_comma: false,
            ..lexer
        }
    } else if byte == 0x65 || byte == 0x45 {
        Lexer { in_exponent: true, digits: 0, after_comma: false, ..lexer }
    } else if lexer.in_exponent && lexer.digits == 0 && (byte == 0x2b || byte == 0x2d) {
        Lexer { after_comma: false, ..lexer }
    } else if lexer.in_exponent && 0x30 <= byte <= 0x39 {
        if lexer.digits >= MAX_EXPONENT_DIGITS {
            Lexer { refused: true, ..lexer }
        } else {
            Lexer { digits: (lexer.digits + 1) as u8, after_comma: false, ..lexer }
        }
    } else {
        Lexer { in_exponent: false, digits: 0, after_comma: false, ..lexer }
    }
}

/// The scan after all of `bytes`.
pub open spec fn lexer_after(bytes: Seq<u8>) -> Lexer
    decreases bytes.len(),
{
    if bytes.len() == 0 {
        lexer_start()
    } else {
        lexer_step(lexer_after(bytes.drop_last()), bytes.last())
    }
}

/// The document keeps within the limits. It is shorter than 2^32 bytes.
/// Outside its string literals, no closing brace follows a comma with nothing
/// or only white space between, no `e` or `E` is followed, with or without a
/// sign between, by more than nine digits, and no more than 128 brackets and
/// braces are open at once. No string literal of more than 511 bytes between
/// its quotes is the last one before a colon. The scan reads the document as
/// the bytes of its UTF-8 form.
pub open spec fn within_limits(text: Seq<char>) -> bool {
    encode_utf8(text).len() <= MAX_DOCUMENT_BYTES && !lexer_after(encode_utf8(text)).refused
}

impl Lexer {
    /// The scan before the first byte.
    pub fn start() -> (lexer: Lexer)
        ensures
            lexer == lexer_start(),
    {
        Lexer {
            in_string: false,
            escaped: false,
            in_exponent: false,
            digits: 0,
            depth: 0,
            literal: 0,
            after_comma: false,
            refused: false,
        }
    }

    /// The scan after one more byte.
    pub fn step(self, byte: u8) -> (next: Lexer)
        ensures
            next == lexer_step(self, byte),
    {
        let mut next = self;
        if self.refused {
        } else if self.in_string {
            if !self.escaped && byte == 0x22 {
                next.in_string = false;
            } else {
                next.escaped = !self.escaped && byte == 0x5c;
                if self.literal <= MAX_KEY_BYTES {
                    next.literal = self.literal + 1;
                }
            }
        } else if byte == 0x20 || byte == 0x0a || byte == 0x09 || byte == 0x0d {
            next.in_exponent = false;
            next.digits = 0;
        } else if byte == 0x22 {
            next.in_string = true;
            next.escaped = false;
            next.in_exponent = false;
            next.digits = 0;
            next.literal = 0;
            next.after_comma = false;
        } else if byte == 0x2c {
            next.after_comma = true;
            next.in_exponent = false;
            next.digits = 0;
        } else if byte == 0x7d && self.after_comma {
            next.refused = true;
        } else if byte == 0x3a && self.literal > MAX_KEY_BYTES {
            next.refused = true;
        } else if byte == 0x5b || byte == 0x7b {
            if self.depth >= MAX_DEPTH {
                next.refused = true;
            } else {
                next.depth = self.depth + 1;
                next.in_exponent = false;
                next.digits = 0;
                next.after_comma = false;
            }
        } else if byte == 0x5d || byte == 0x7d {
            if self.depth > 0 {
                next.depth = self.depth - 1;
            }
            next.in_exponent = false;
            next.digits = 0;
            next.after_comma = false;
        } else if byte == 0x65 || byte == 0x45 {
            next.in_exponent = true;
            next.digits = 0;
            next.after_comma = false;
        } else if self.in_exponent && self.digits == 0 && (byte == 0x2b || byte == 0x2d) {
            next.after_comma = false;
        } else if self.in_exponent && 0x30 <= byte && byte <= 0x39 {
            if self.digits >= MAX_EXPONENT_DIGITS {
                next.refused = true;
            } else {
                next.digits = self.digits + 1;
                next.after_comma = false;
            }
        } else {
            next.in_exponent = false;
            next.digits = 0;
            next.after_comma = false;
        }
        next
    }
}

/// Whether `text` keeps within the limits.
pub fn check_limits(text: &str) -> (ok: bool)
    ensures
        ok == within_limits(text@),
{
    let bytes = text.as_bytes();
    if bytes.len() > MAX_DOCUMENT_BYTES {
        return false;
    }
    let mut lexer = Lexer::start();
    let mut i: usize = 0;
    proof {
        assert(bytes@.take(0) =~= Seq::<u8>::empty());
    }
    while i < bytes.len()
        invariant
            i <= bytes@.len(),
            bytes@ == encode_utf8(text@),
            lexer == lexer_after(bytes@.take(i as int)),
        decreases bytes@.len() - i,
    {
        proof {
            assert(bytes@.take(i + 1).drop_last() == bytes@.take(i as int));
        }
        lexer = lexer.step(bytes[i]);
        i = i + 1;
    }
    proof {
        assert(bytes@.take(bytes@.len() as int) == bytes@);
    }
    !lexer.refused
}

/// The value of the document `text`: what the parser builds from it, and
/// nothing where the parser reports an error or the text passes a limit.
pub open spec fn parsed(text: Seq<char>) -> Option<JsonModel> {
    if within_limits(text) {
        json_document(text)
    } else {
        None
    }
}

/// Parses a JSON document.
pub fn parse(text: &str) -> (value: Option<JsonValue>)
    ensures
        view_of(value) == parsed(text@),
{
    if !check_limits(text) {
        return None;
    }
    match json_from_str(text) {
        Some(json) => Some(json_value(&json)),
        None => None,
    }
}

} // verus!
