//! The key codec: the single place that knows the shape of a key.
//!
//! A key is the entity's prefix, the delimiter `:` and the identifier's text.
//! An identifier is a non-empty run of visible ASCII characters other than the
//! delimiter, so that a key splits in exactly one way.

use vstd::prelude::*;
use vstd::string::*;
use crate::entity::{prefix_is_lowercase, prefix_text, prefixes_are_distinct, EntityType};
use crate::error::{HydrationError, HydrationErrorView};

verus! {

/// Whether `c` may stand in an identifier: visible ASCII, not the delimiter.
pub open spec fn is_identifier_char(c: char) -> bool {
    '!' <= c <= '~' && c != ':'
}

/// Whether `text` is the text of an identifier.
pub open spec fn is_identifier(text: Seq<char>) -> bool {
    &&& text.len() > 0
    &&& forall|i: int| 0 <= i < text.len() ==> is_identifier_char(#[trigger] text[i])
}

/// The key under which the store holds the record `id` of `entity`.
pub open spec fn key_text(entity: EntityType, id: Seq<char>) -> Seq<char> {
    prefix_text(entity).push(':') + id
}

/// The identifier that `key` decodes to for `entity`, if it has the shape of a key.
pub open spec fn parse_spec(entity: EntityType, key: Seq<char>) -> Option<Seq<char>> {
    let p = prefix_text(entity).len() as int;
    if key.len() > p + 1 && key.subrange(0, p) == prefix_text(entity) && key[p] == ':'
        && is_identifier(key.subrange(p + 1, key.len() as int)) {
        Some(key.subrange(p + 1, key.len() as int))
    } else {
        None
    }
}

/// The identifier of one record: the entity type it belongs to and its text.
#[derive(Clone, Debug, PartialEq, Eq)]
pub struct Identifier {
    pub entity: EntityType,
    pub text: String,
}

impl View for Identifier {
    type V = Seq<char>;

    open spec fn view(&self) -> Seq<char> {
        self.text@
    }
}

impl Identifier {
    /// An identifier is well formed when its text obeys the identifier syntax.
    pub open spec fn wf(&self) -> bool {
        is_identifier(self.text@)
    }

    /// The entity type this identifier belongs to.
    pub fn entity(&self) -> (e: EntityType)
        ensures
            e == self.entity,
    {
        self.entity
    }

    /// The identifier's text.
    pub fn as_str(&self) -> (s: &str)
        ensures
            s@ == self@,
    {
        self.text.as_str()
    }

    /// The key under which the store holds this identifier's record.
    pub fn to_key(&self) -> (key: String)
        ensures
            key@ == key_text(self.entity, self@),
    {
        let mut key = String::from_str(self.entity.prefix());
        key.append(":");
        key.append(self.text.as_str());
        proof {
            reveal_strlit(":");
            assert(key@ =~= key_text(self.entity, self@));
        }
        key
    }
}

/// Decodes `key` into the identifier of an `entity` record.
///
/// The key is split after the entity's prefix and the delimiter that follows
/// it; what remains is the identifier. A key of any other shape is malformed.
pub fn parse(entity: EntityType, key: &str) -> (r: Result<Identifier, HydrationError>)
    ensures
        match r {
            Ok(id) => parse_spec(entity, key@) == Some(id@) && id.entity == entity && id.wf(),
            Err(e) => parse_spec(entity, key@).is_none() && e@ == (HydrationErrorView::MalformedKey {
                key: key@,
            }),
        },
{
    broadcast use is_ascii_spec_bytes;

    let prefix = entity.prefix();
    proof {
        prefix_is_lowercase(entity);
    }
    if !key.is_ascii() {
        proof {
            non_ascii_is_malformed(entity, key@);
        }
        return Err(HydrationError::MalformedKey { key: key.to_owned() });
    }
    let n: usize = key.as_bytes().len();
    let p: usize = prefix.as_bytes().len();
    proof {
        is_ascii_spec_bytes(key);
        is_ascii_spec_bytes(prefix);
    }
    if n <= p + 1 {
        return Err(HydrationError::MalformedKey { key: key.to_owned() });
    }
    let mut i: usize = 0;
    while i < p
        invariant
            i <= p < n,
            n == key@.len(),
            p == prefix@.len(),
            prefix@ == prefix_text(entity),
            key.is_ascii(),
            prefix.is_ascii(),
            forall|j: int| 0 <= j < i ==> key@[j] == prefix@[j],
        decreases p - i,
    {
        if key.get_ascii(i) != prefix.get_ascii(i) {
            assert(key@.subrange(0, p as int)[i as int] != prefix@[i as int]);
            return Err(HydrationError::MalformedKey { key: key.to_owned() });
        }
        i += 1;
    }
    assert(key@.subrange(0, p as int) =~= prefix@);
    if key.get_ascii(p) != 0x3a {
        return Err(HydrationError::MalformedKey { key: key.to_owned() });
    }
    let start: usize = p + 1;
    let mut k: usize = start;
    while k < n
        invariant
            start <= k <= n,
            start == prefix_text(entity).len() + 1,
            n == key@.len(),
            key.is_ascii(),
            forall|j: int| start <= j < k ==> is_identifier_char(#[trigger] key@[j]),
        decreases n - k,
    {
        let b: u8 = key.get_ascii(k);
        if b < 0x21 || b > 0x7e || b == 0x3a {
            assert(!is_identifier_char(key@.subrange(start as int, n as int)[k - start]));
            return Err(HydrationError::MalformedKey { key: key.to_owned() });
        }
        k += 1;
    }
    let text = key.substring_ascii(start, n).to_owned();
    assert(is_identifier(text@));
    Ok(Identifier { entity, text })
}

/// A key that holds a character outside ASCII has no identifier.
proof fn non_ascii_is_malformed(entity: EntityType, key: Seq<char>)
    requires
        !vstd::utf8::is_ascii_chars(key),
    ensures
        parse_spec(entity, key).is_none(),
{
    prefix_is_lowercase(entity);
    let p = prefix_text(entity).len() as int;
    let i = choose|i: int| 0 <= i < key.len() && !('\0' <= #[trigger] key[i] <= '\u{7f}');
    if parse_spec(entity, key).is_some() {
        if i < p {
            assert(key.subrange(0, p)[i] == key[i]);
        } else if i > p {
            assert(key.subrange(p + 1, key.len() as int)[i - p - 1] == key[i]);
        }
    }
}

/// Decoding undoes encoding: the key of an identifier decodes to that identifier.
pub proof fn parse_inverts_key_text(entity: EntityType, id: Seq<char>)
    requires
        is_identifier(id),
    ensures
        parse_spec(entity, key_text(entity, id)) == Some(id),
{
    let key = key_text(entity, id);
    let p = prefix_text(entity).len() as int;
    assert(key.subrange(0, p) =~= prefix_text(entity));
    assert(key.subrange(p + 1, key.len() as int) =~= id);
}

/// Encoding undoes decoding: a key that decodes is the key of its identifier,
/// and its identifier obeys the identifier syntax.
pub proof fn key_text_inverts_parse(entity: EntityType, key: Seq<char>)
    requires
        parse_spec(entity, key).is_some(),
    ensures
        is_identifier(parse_spec(entity, key).unwrap()),
        key_text(entity, parse_spec(entity, key).unwrap()) == key,
{
    let p = prefix_text(entity).len() as int;
    let id = parse_spec(entity, key).unwrap();
    assert(key_text(entity, id) =~= key) by {
        assert forall|i: int| 0 <= i < key.len() implies key_text(entity, id)[i] == key[i] by {
            if i < p {
                assert(key.subrange(0, p)[i] == key[i]);
            }
        }
    }
}

/// Two keys that decode to the same identifier of one entity type are the same key.
pub proof fn parse_is_injective(entity: EntityType, a: Seq<char>, b: Seq<char>)
    requires
        parse_spec(entity, a).is_some(),
        parse_spec(entity, a) == parse_spec(entity, b),
    ensures
        a == b,
{
    key_text_inverts_parse(entity, a);
    key_text_inverts_parse(entity, b);
}

/// A key decodes for at most one entity type.
pub proof fn parse_determines_entity(a: EntityType, b: EntityType, key: Seq<char>)
    requires
        parse_spec(a, key).is_some(),
        parse_spec(b, key).is_some(),
    ensures
        a == b,
{
    if a != b {
        prefix_is_lowercase(a);
        prefix_is_lowercase(b);
        prefixes_are_distinct(a, b);
        let pa = prefix_text(a).len() as int;
        let pb = prefix_text(b).len() as int;
        assert(key.subrange(0, pa)[0] == key[0] && key.subrange(0, pa)[1] == key[1]);
        assert(key.subrange(0, pb)[0] == key[0] && key.subrange(0, pb)[1] == key[1]);
    }
}

} // verus!
