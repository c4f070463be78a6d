//! Hints: advisory messages that ask the host to make a preimage available.
//!
//! A hint travels as text: the name of its type, one space, and its data in
//! lowercase hexadecimal without a prefix.

use crate::hex::check_lower_hex;
use crate::hex::decoded_view;
use crate::hex::hex_decode;
use crate::hex::hex_bytes;
use crate::hex::hex_decoding;
use crate::hex::hex_encode;
use crate::hex::hex_error_message;
use crate::hex::hex_error_text;
use crate::hex::hex_text;
use crate::hex::is_lower_hex;
use crate::hex::is_lower_hex_digit;
use crate::hex::lemma_lower_hex_decodes;
use crate::hex::lemma_hex_decoded_unique;
use crate::hex::HexError;
use crate::text::str_eq;
use vstd::prelude::*;
use vstd::slice::slice_index_get;
use vstd::slice::slice_subrange;
use vstd::utf8::decode_utf8;
use vstd::utf8::encode_utf8;
use vstd::utf8::encode_utf8_decode_utf8;
use vstd::utf8::encode_utf8_valid_utf8;
use vstd::utf8::is_ascii_chars;
use vstd::utf8::is_ascii_chars_encode_utf8;
use vstd::utf8::is_char_boundary_iff_not_is_continuation_byte;

verus! {

/// A hint could not be parsed; the field says why.
#[derive(Debug, Clone, PartialEq, Eq)]
pub struct HintParsingError(pub String);

/// The kind of data that a hint asks for.
#[derive(Debug, Clone, Copy, PartialEq, Eq, PartialOrd, Ord, Structural)]
pub enum HintType {
    /// The header of a layer 1 block.
    L1BlockHeader,
    /// The transactions of a layer 1 block.
    L1Transactions,
    /// The receipts of a layer 1 block.
    L1Receipts,
    /// A blob of the layer 1 beacon chain.
    L1Blob,
    /// A precompile call on layer 1.
    L1Precompile,
    /// The header of a layer 2 block.
    L2BlockHeader,
    /// The transactions of a layer 2 block.
    L2Transactions,
    /// The receipts of a layer 2 block.
    L2Receipts,
    /// The code of a contract on layer 2.
    L2Code,
    /// The preimage of the agreed pre-state claim.
    AgreedPreState,
    /// The preimage of a layer 2 output root.
    L2OutputRoot,
    /// A node of the layer 2 state trie.
    L2StateNode,
    /// The proof on the path to an account in the layer 2 state trie.
    L2AccountProof,
    /// The proof on the path to a storage slot of an account in the layer 2
    /// state trie.
    L2AccountStorageProof,
    /// All the code, state and keys that an execution witness produced.
    L2PayloadWitness,
}

impl HintType {
    /// The name of the type, as it is written in a hint.
    pub open spec fn name(self) -> Seq<char> {
        match self {
            HintType::L1BlockHeader => "l1-block-header"@,
            HintType::L1Transactions => "l1-transactions"@,
            HintType::L1Receipts => "l1-receipts"@,
            HintType::L1Blob => "l1-blob"@,
            HintType::L1Precompile => "l1-precompile"@,
            HintType::L2BlockHeader => "l2-block-header"@,
            HintType::L2Transactions => "l2-transactions"@,
            HintType::L2Receipts => "l2-receipts"@,
            HintType::L2Code => "l2-code"@,
            HintType::AgreedPreState => "agreed-pre-state"@,
            HintType::L2OutputRoot => "l2-output-root"@,
            HintType::L2StateNode => "l2-state-node"@,
            HintType::L2AccountProof => "l2-account-proof"@,
            HintType::L2AccountStorageProof => "l2-account-storage-proof"@,
            HintType::L2PayloadWitness => "l2-payload-witness"@,
        }
    }

    /// The type that `text` names, if it names one.
    pub open spec fn named(text: Seq<char>) -> Option<HintType> {
        if exists|t: HintType| text == t.name() {
            Some(choose|t: HintType| text == t.name())
        } else {
            None
        }
    }

    /// The name of the type.
    pub fn as_str(self) -> (s: &'static str)
        ensures
            s@ == self.name(),
    {
        <&'static str>::from(self)
    }

    /// The name of the type, as a string of its own.
    pub fn to_string(&self) -> (s: String)
        ensures
            s@ == self.name(),
    {
        self.as_str().to_owned()
    }

    /// The type that `value` names. A text that names none comes back as the
    /// error.
    pub fn try_from(value: &str) -> (r: Result<HintType, HintParsingError>)
        ensures
            match r {
                Ok(t) => HintType::named(value@) == Some(t),
                Err(e) => HintType::named(value@) is None && e.0@ == value@,
            },
    {
        let found = if str_eq(value, "l1-block-header") {
            Some(HintType::L1BlockHeader)
        } else if str_eq(value, "l1-transactions") {
            Some(HintType::L1Transactions)
        } else if str_eq(value, "l1-receipts") {
            Some(HintType::L1Receipts)
        } else if str_eq(value, "l1-blob") {
            Some(HintType::L1Blob)
        } else if str_eq(value, "l1-precompile") {
            Some(HintType::L1Precompile)
        } else if str_eq(value, "l2-block-header") {
            Some(HintType::L2BlockHeader)
        } else if str_eq(value, "l2-transactions") {
            Some(HintType::L2Transactions)
        } else if str_eq(value, "l2-receipts") {
            Some(HintType::L2Receipts)
        } else if str_eq(value, "l2-code") {
            Some(HintType::L2Code)
        } else if str_eq(value, "agreed-pre-state") {
            Some(HintType::AgreedPreState)
        } else if str_eq(value, "l2-output-root") {
            Some(HintType::L2OutputRoot)
        } else if str_eq(value, "l2-state-node") {
            Some(HintType::L2StateNode)
        } else if str_eq(value, "l2-account-proof") {
            Some(HintType::L2AccountProof)
        } else if str_eq(value, "l2-account-storage-proof") {
            Some(HintType::L2AccountStorageProof)
        } else if str_eq(value, "l2-payload-witness") {
            Some(HintType::L2PayloadWitness)
        } else {
            None
        };
        match found {
            Some(t) => {
                proof {
                    assert(value@ == t.name());
                    lemma_name_injective(t, HintType::named(value@).unwrap());
                }
                Ok(t)
            },
            None => {
                assert forall|t: HintType| value@ != t.name() by {}
                Err(HintParsingError(value.to_owned()))
            },
        }
    }
}

impl From<HintType> for &'static str {
    fn from(value: HintType) -> (name: &'static str) {
        match value {
            HintType::L1BlockHeader => "l1-block-header",
            HintType::L1Transactions => "l1-transactions",
            HintType::L1Receipts => "l1-receipts",
            HintType::L1Blob => "l1-blob",
            HintType::L1Precompile => "l1-precompile",
            HintType::L2BlockHeader => "l2-block-header",
            HintType::L2Transactions => "l2-transactions",
            HintType::L2Receipts => "l2-receipts",
            HintType::L2Code => "l2-code",
            HintType::AgreedPreState => "agreed-pre-state",
            HintType::L2OutputRoot => "l2-output-root",
            HintType::L2StateNode => "l2-state-node",
            HintType::L2AccountProof => "l2-account-proof",
            HintType::L2AccountStorageProof => "l2-account-storage-proof",
            HintType::L2PayloadWitness => "l2-payload-witness",
        }
    }
}

impl vstd::std_specs::convert::FromSpecImpl<HintType> for &'static str {
    open spec fn obeys_from_spec() -> bool {
        true
    }

    open spec fn from_spec(value: HintType) -> &'static str {
        match value {
            HintType::L1BlockHeader => "l1-block-header",
            HintType::L1Transactions => "l1-transactions",
            HintType::L1Receipts => "l1-receipts",
            HintType::L1Blob => "l1-blob",
            HintType::L1Precompile => "l1-precompile",
            HintType::L2BlockHeader => "l2-block-header",
            HintType::L2Transactions => "l2-transactions",
            HintType::L2Receipts => "l2-receipts",
            HintType::L2Code => "l2-code",
            HintType::AgreedPreState => "agreed-pre-state",
            HintType::L2OutputRoot => "l2-output-root",
            HintType::L2StateNode => "l2-state-node",
            HintType::L2AccountProof => "l2-account-proof",
            HintType::L2AccountStorageProof => "l2-account-storage-proof",
            HintType::L2PayloadWitness => "l2-payload-witness",
        }
    }
}

/// A hint: its type and its data.
#[derive(Debug, Clone, PartialEq, Eq)]
pub struct Hint {
    /// The type of the hint.
    pub hint_type: HintType,
    /// The data of the hint.
    pub hint_data: Vec<u8>,
}

/// The byte between a hint's type and its data.
pub const SEPARATOR: u8 = 0x20;

/// The text of a hint: the name of its type, one space, and its data in
/// lowercase hexadecimal.
pub open spec fn hint_text(hint_type: HintType, data: Seq<u8>) -> Seq<char> {
    hint_type.name() + seq![' '] + hex_text(data)
}

/// All the bytes of `parts`, in order.
pub open spec fn joined(parts: Seq<&[u8]>) -> Seq<u8> {
    parts.map_values(|part: &[u8]| part@).flatten()
}

/// One part, joined, is that part.
pub proof fn lemma_joined_one(parts: Seq<&[u8]>, bytes: Seq<u8>)
    requires
        parts.len() == 1,
        parts[0]@ == bytes,
    ensures
        joined(parts) == bytes,
{
    let views = parts.map_values(|part: &[u8]| part@);
    assert(views =~= Seq::<Seq<u8>>::empty().push(bytes));
    Seq::<Seq<u8>>::empty().lemma_flatten_push(bytes);
    assert(joined(parts) =~= bytes);
}

/// `at` is where the only separator of `wire` stands.
pub open spec fn is_separator(wire: Seq<u8>, at: int) -> bool {
    &&& 0 <= at < wire.len()
    &&& wire[at] == SEPARATOR
    &&& forall|j: int| 0 <= j < wire.len() && j != at ==> #[trigger] wire[j] != SEPARATOR
}

/// Where the only separator of `wire` stands; `None` where `wire` holds none
/// or more than one.
pub open spec fn separator(wire: Seq<u8>) -> Option<int> {
    if exists|at: int| is_separator(wire, at) {
        Some(choose|at: int| is_separator(wire, at))
    } else {
        None
    }
}

/// Why a text is no hint.
pub enum ParseFailure {
    /// The text is not one type, one space and data in lowercase hexadecimal
    /// without a prefix.
    Format,
    /// The text before the space, which names no hint type.
    UnknownType(Seq<char>),
    /// The data does not decode.
    Data(HexError),
}

/// What parsing `text` gives: the hint that `text` is the text of, or why it
/// is none.
pub open spec fn parse_outcome(text: Seq<char>) -> Result<(HintType, Seq<u8>), ParseFailure> {
    let wire = encode_utf8(text);
    match separator(wire) {
        None => Err(ParseFailure::Format),
        Some(at) => {
            let token = decode_utf8(wire.take(at));
            let data = wire.skip(at + 1);
            match HintType::named(token) {
                None => Err(ParseFailure::UnknownType(token)),
                Some(hint_type) => match hex_decoding(data) {
                    Err(e) => Err(ParseFailure::Data(e)),
                    Ok(bytes) => if is_lower_hex(data) {
                        Ok((hint_type, bytes))
                    } else {
                        Err(ParseFailure::Format)
                    },
                },
            }
        },
    }
}

/// The message for a failure to parse `text`.
pub open spec fn failure_text(failure: ParseFailure, text: Seq<char>) -> Seq<char> {
    match failure {
        ParseFailure::Format => "Invalid hint format: "@ + text,
        ParseFailure::UnknownType(token) => token,
        ParseFailure::Data(e) => hex_error_text(e),
    }
}

/// A text has at most one place for its only separator.
pub proof fn lemma_separator_unique(wire: Seq<u8>, a: int, b: int)
    requires
        is_separator(wire, a),
        is_separator(wire, b),
    ensures
        a == b,
{
    if a != b {
        assert(wire[b] != SEPARATOR);
    }
}

/// Where the only separator of `wire` stands.
fn find_separator(wire: &[u8]) -> (found: Option<usize>)
    ensures
        match found {
            Some(at) => is_separator(wire@, at as int) && separator(wire@) == Some(at as int),
            None => separator(wire@) is None,
        },
{
    let mut first: usize = 0;
    while first < wire.len() && *slice_index_get(wire, first) != SEPARATOR
        invariant
            first <= wire@.len(),
            forall|j: int| 0 <= j < first ==> wire@[j] != SEPARATOR,
        decreases wire@.len() - first,
    {
        first = first + 1;
    }
    if first == wire.len() {
        assert forall|at: int| !is_separator(wire@, at) by {}
        return None;
    }
    let mut i: usize = first + 1;
    while i < wire.len()
        invariant
            first < i <= wire@.len(),
            wire@[first as int] == SEPARATOR,
            forall|j: int| first < j < i ==> wire@[j] != SEPARATOR,
        decreases wire@.len() - i,
    {
        if *slice_index_get(wire, i) == SEPARATOR {
            assert forall|at: int| !is_separator(wire@, at) by {
                if is_separator(wire@, at) {
                    if at == first as int {
                        assert(wire@[i as int] != SEPARATOR);
                    } else {
                        assert(wire@[first as int] != SEPARATOR);
                    }
                }
            }
            return None;
        }
        i = i + 1;
    }
    proof {
        assert(is_separator(wire@, first as int));
        lemma_separator_unique(wire@, first as int, separator(wire@).unwrap());
    }
    Some(first)
}

/// The message for a text that is not in the form of a hint.
fn invalid_format(s: &str) -> (e: HintParsingError)
    ensures
        e.0@ == failure_text(ParseFailure::Format, s@),
{
    HintParsingError(String::from_str("Invalid hint format: ").concat(s))
}

impl Hint {
    /// Parses a hint from its text. The text must hold one space; before it
    /// stands the name of a hint type, behind it the data in lowercase
    /// hexadecimal without a prefix.
    pub fn parse(s: &str) -> (r: Result<Hint, HintParsingError>)
        ensures
            match r {
                Ok(hint) => parse_outcome(s@) == Ok::<(HintType, Seq<u8>), ParseFailure>(
                    (hint.hint_type, hint.hint_data@),
                ),
                Err(e) => parse_outcome(s@) is Err && e.0@ == failure_text(
                    parse_outcome(s@)->Err_0,
                    s@,
                ),
            },
    {
        let wire = s.as_bytes();
        let len = wire.len();
        let at = match find_separator(wire) {
            Some(at) => at,
            None => {
                return Err(invalid_format(s));
            },
        };
        proof {
            encode_utf8_valid_utf8(s@);
            is_char_boundary_iff_not_is_continuation_byte(wire@, at as int);
        }
        let (token, _) = s.split_at(at);
        let data = slice_subrange(wire, at + 1, len);
        proof {
            encode_utf8_decode_utf8(token@);
            assert(wire@.take(at as int) =~= wire@.subrange(0, at as int));
            assert(data@ =~= wire@.skip(at + 1));
        }
        let hint_type = match HintType::try_from(token) {
            Ok(hint_type) => hint_type,
            Err(e) => {
                return Err(e);
            },
        };
        let canonical = check_lower_hex(data);
        let decoded = hex_decode(data);
        proof {
            lemma_hex_decoded_unique(data@, decoded_view(decoded));
        }
        match decoded {
            Err(e) => Err(HintParsingError(hex_error_message(e))),
            Ok(bytes) => {
                if canonical {
                    Ok(Hint { hint_type, hint_data: bytes })
                } else {
                    Err(invalid_format(s))
                }
            },
        }
    }

    /// Splits the hint into its type and its data.
    pub fn split(self) -> (parts: (HintType, Vec<u8>))
        ensures
            parts.0 == self.hint_type,
            parts.1 == self.hint_data,
    {
        (self.hint_type, self.hint_data)
    }
}

impl HintType {
    /// The text of the hint of this type whose data is the bytes of `data`,
    /// one part after the other.
    pub fn encode_with(&self, data: &[&[u8]]) -> (text: String)
        ensures
            text@ == hint_text(*self, joined(data@)),
    {
        let mut all: Vec<u8> = Vec::new();
        let mut i: usize = 0;
        assert(data@.take(0) =~= Seq::<&[u8]>::empty());
        while i < data.len()
            invariant
                i <= data@.len(),
                all@ == joined(data@.take(i as int)),
            decreases data@.len() - i,
        {
            let part: &[u8] = *slice_index_get(data, i);
            let ghost before = all@;
            all.extend_from_slice(part);
            proof {
                assert(all@ =~= before + part@);
                let parts = data@.take(i as int).map_values(|part: &[u8]| part@);
                assert(data@.take(i + 1).map_values(|part: &[u8]| part@) =~= parts.push(part@));
                parts.lemma_flatten_push(part@);
            }
            i = i + 1;
        }
        assert(data@.take(data@.len() as int) =~= data@);
        let digits = hex_encode(all.as_slice());
        proof {
            reveal_strlit(" ");
            assert(" "@ =~= seq![' ']);
        }
        String::from_str(self.as_str()).concat(" ").concat(digits.as_str())
    }
}

/// Length and two characters that tell the names apart.
spec fn name_mark(text: Seq<char>) -> (nat, char, char) {
    (text.len(), text[1], text[3])
}

/// No two hint types share a name.
pub proof fn lemma_name_injective(a: HintType, b: HintType)
    requires
        a.name() == b.name(),
    ensures
        a == b,
{
    reveal_strlit("l1-block-header");
    reveal_strlit("l1-transactions");
    reveal_strlit("l1-receipts");
    reveal_strlit("l1-blob");
    reveal_strlit("l1-precompile");
    reveal_strlit("l2-block-header");
    reveal_strlit("l2-transactions");
    reveal_strlit("l2-receipts");
    reveal_strlit("l2-code");
    reveal_strlit("agreed-pre-state");
    reveal_strlit("l2-output-root");
    reveal_strlit("l2-state-node");
    reveal_strlit("l2-account-proof");
    reveal_strlit("l2-account-storage-proof");
    reveal_strlit("l2-payload-witness");
    assert(name_mark(a.name()) == name_mark(b.name()));
}

/// A character that a name is written with: a lowercase letter, a digit or
/// the hyphen.
pub open spec fn is_name_char(c: char) -> bool {
    'a' <= c <= 'z' || '0' <= c <= '9' || c == '-'
}

/// Every name is written with lowercase letters, digits and hyphens.
pub proof fn lemma_name_chars(hint_type: HintType)
    ensures
        forall|i: int|
            0 <= i < hint_type.name().len() ==> is_name_char(#[trigger] hint_type.name()[i]),
{
    reveal_strlit("l1-block-header");
    reveal_strlit("l1-transactions");
    reveal_strlit("l1-receipts");
    reveal_strlit("l1-blob");
    reveal_strlit("l1-precompile");
    reveal_strlit("l2-block-header");
    reveal_strlit("l2-transactions");
    reveal_strlit("l2-receipts");
    reveal_strlit("l2-code");
    reveal_strlit("agreed-pre-state");
    reveal_strlit("l2-output-root");
    reveal_strlit("l2-state-node");
    reveal_strlit("l2-account-proof");
    reveal_strlit("l2-account-storage-proof");
    reveal_strlit("l2-payload-witness");
}

/// A name names its own type, and no other text names that type.
pub proof fn lemma_named_inverts_name(hint_type: HintType, text: Seq<char>)
    ensures
        HintType::named(hint_type.name()) == Some(hint_type),
        HintType::named(text) == Some(hint_type) <==> text == hint_type.name(),
{
    lemma_name_injective(hint_type, HintType::named(hint_type.name()).unwrap());
    if text == hint_type.name() {
    } else if HintType::named(text) is Some {
        let other = HintType::named(text).unwrap();
        assert(text == other.name());
    }
}

/// Parsing the text of a hint gives the hint back.
pub proof fn lemma_parse_inverts_text(hint_type: HintType, data: Seq<u8>)
    ensures
        parse_outcome(hint_text(hint_type, data)) == Ok::<(HintType, Seq<u8>), ParseFailure>(
            (hint_type, data),
        ),
{
    let name = hint_type.name();
    let text = hint_text(hint_type, data);
    let at = name.len() as int;
    lemma_name_chars(hint_type);
    assert forall|i: int| 0 <= i < text.len() implies {
        &&& '\0' <= #[trigger] text[i] <= '\u{7f}'
        &&& i < at ==> text[i] == name[i] && is_name_char(text[i])
        &&& i == at ==> text[i] == ' '
        &&& i > at ==> text[i] == hex_text(data)[i - at - 1] && is_lower_hex_digit(text[i] as u8)
    } by {
        if i < at {
            assert(is_name_char(name[i]));
        }
    }
    assert(is_ascii_chars(text));
    is_ascii_chars_encode_utf8(text);
    let wire = encode_utf8(text);
    assert(is_separator(wire, at)) by {
        assert forall|j: int| 0 <= j < wire.len() && j != at implies #[trigger] wire[j]
            != SEPARATOR by {
            assert(wire[j] == text[j] as u8);
        }
        assert(wire[at] == text[at] as u8);
    }
    lemma_separator_unique(wire, at, separator(wire).unwrap());

    assert(is_ascii_chars(name)) by {
        assert forall|i: int| 0 <= i < name.len() implies '\0' <= #[trigger] name[i]
            <= '\u{7f}' by {
            assert(is_name_char(name[i]));
        }
    }
    is_ascii_chars_encode_utf8(name);
    assert(wire.take(at) =~= encode_utf8(name)) by {
        assert forall|i: int| 0 <= i < at implies wire.take(at)[i] == encode_utf8(name)[i] by {
            assert(wire[i] == text[i] as u8);
            assert(encode_utf8(name)[i] == name[i] as u8);
        }
    }
    encode_utf8_decode_utf8(name);
    lemma_named_inverts_name(hint_type, name);

    let payload = wire.skip(at + 1);
    assert(is_lower_hex(payload)) by {
        assert forall|i: int| 0 <= i < payload.len() implies is_lower_hex_digit(
            #[trigger] payload[i],
        ) by {
            assert(payload[i] == text[i + at + 1] as u8);
        }
    }
    lemma_lower_hex_decodes(payload);
    assert(hex_bytes(payload) =~= data) by {
        assert forall|k: int| 0 <= k < data.len() implies hex_bytes(payload)[k] == data[k] by {
            assert(payload[2 * k] == text[2 * k + at + 1] as u8);
            assert(payload[2 * k + 1] == text[2 * k + 1 + at + 1] as u8);
            assert(text[2 * k + at + 1] == hex_text(data)[2 * k]);
            assert(text[2 * k + 1 + at + 1] == hex_text(data)[2 * k + 1]);
        }
    }
}

/// The characters of a string of ASCII bytes.
spec fn ascii_chars(bytes: Seq<u8>) -> Seq<char> {
    Seq::new(bytes.len(), |i: int| bytes[i] as char)
}

/// A string of ASCII bytes decodes to its bytes as characters.
proof fn lemma_decode_ascii(bytes: Seq<u8>)
    requires
        forall|i: int| 0 <= i < bytes.len() ==> #[trigger] bytes[i] <= 0x7f,
    ensures
        decode_utf8(bytes) == ascii_chars(bytes),
{
    let chars = ascii_chars(bytes);
    assert(is_ascii_chars(chars)) by {
        assert forall|i: int| 0 <= i < chars.len() implies '\0' <= #[trigger] chars[i]
            <= '\u{7f}' by {
            assert(bytes[i] <= 0x7f);
        }
    }
    is_ascii_chars_encode_utf8(chars);
    assert(encode_utf8(chars) =~= bytes) by {
        assert forall|i: int| 0 <= i < bytes.len() implies encode_utf8(chars)[i] == bytes[i] by {
            assert(bytes[i] <= 0x7f);
            assert(chars[i] as u8 == encode_utf8(chars)[i]);
        }
    }
    encode_utf8_decode_utf8(chars);
}

/// A text that parses to a hint is the text of that hint: the hints and
/// their texts stand one to one.
pub proof fn lemma_text_of_parsed(text: Seq<char>, hint_type: HintType, data: Seq<u8>)
    requires
        parse_outcome(text) == Ok::<(HintType, Seq<u8>), ParseFailure>((hint_type, data)),
    ensures
        text == hint_text(hint_type, data),
{
    let wire = encode_utf8(text);
    let at = separator(wire).unwrap();
    assert(is_separator(wire, at));
    let token = decode_utf8(wire.take(at));
    let payload = wire.skip(at + 1);
    lemma_named_inverts_name(hint_type, token);
    assert(token == hint_type.name());
    assert(is_lower_hex(payload));
    lemma_lower_hex_decodes(payload);
    assert(data == hex_bytes(payload));

    encode_utf8_decode_utf8(text);
    encode_utf8_valid_utf8(text);
    is_char_boundary_iff_not_is_continuation_byte(wire, at);
    vstd::utf8::decode_utf8_split(wire, at);
    let rest = wire.subrange(at, wire.len() as int);
    assert(wire.take(at) =~= wire.subrange(0, at));
    assert forall|i: int| 0 <= i < rest.len() implies #[trigger] rest[i] <= 0x7f by {
        if i > 0 {
            assert(rest[i] == payload[i - 1]);
            assert(is_lower_hex_digit(payload[i - 1]));
        }
    }
    lemma_decode_ascii(rest);
    assert(ascii_chars(rest) =~= seq![' '] + hex_text(data)) by {
        assert forall|i: int| 0 <= i < rest.len() implies ascii_chars(rest)[i] == (seq![' ']
            + hex_text(data))[i] by {
            if i > 0 {
                let k = (i - 1) / 2;
                assert(rest[i] == payload[i - 1]);
                assert(is_lower_hex_digit(payload[2 * k]));
                assert(is_lower_hex_digit(payload[2 * k + 1]));
                assert(data[k] == hex_bytes(payload)[k]);
            }
        }
    }
    assert(text =~= hint_type.name() + seq![' '] + hex_text(data));
}

} // verus!
