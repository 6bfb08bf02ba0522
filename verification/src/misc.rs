use vstd::prelude::*;

use crate::dict::{dict_get, dict_insert, Dict};
use crate::text::{dec_digits, u32_to_string};

verus! {

/// Relies on uuid's `Uuid::new_v4` and its display form: a fresh random
/// identifier rendered in the 36-character hyphenated format.
#[verifier::external_body]
pub fn get_new_id() -> (r: String)
    ensures
        r@.len() == 36,
{
    uuid::Uuid::new_v4().to_string()
}

/// How one character is escaped for XML text content.
pub open spec fn escape_char(c: char) -> Seq<char> {
    if c == '&' {
        "&amp;"@
    } else if c == '<' {
        "&lt;"@
    } else if c == '>' {
        "&gt;"@
    } else if c == '\'' {
        "&apos;"@
    } else if c == '"' {
        "&quot;"@
    } else {
        seq![c]
    }
}

/// The XML escaping of a whole string, character by character.
pub open spec fn escape_seq(s: Seq<char>) -> Seq<char>
    decreases s.len(),
{
    if s.len() == 0 {
        Seq::empty()
    } else {
        escape_seq(s.drop_last()) + escape_char(s.last())
    }
}

/// Escapes ', ", &, <, and > with the appropriate XML entities.
pub fn escape_xml(input: &str) -> (r: String)
    ensures
        r@ == escape_seq(input@),
{
    let n = input.unicode_len();
    let mut result = String::new();
    let mut i: usize = 0;
    while i < n
        invariant
            i <= n,
            n == input@.len(),
            result@ =~= escape_seq(input@.take(i as int)),
        decreases n - i,
    {
        let c = input.get_char(i);
        if c == '&' {
            result.append("&amp;");
        } else if c == '<' {
            result.append("&lt;");
        } else if c == '>' {
            result.append("&gt;");
        } else if c == '\'' {
            result.append("&apos;");
        } else if c == '"' {
            result.append("&quot;");
        } else {
            result.push(c);
        }
        proof {
            let t = input@.take(i + 1);
            assert(t.drop_last() =~= input@.take(i as int));
            assert(t.last() == c);
        }
        i += 1;
        assert(result@ =~= escape_seq(input@.take(i as int)));
    }
    proof {
        assert(input@.take(n as int) =~= input@);
    }
    result
}

/// The attribute bag read from numbered form keys `{prefix}{i}.Name` /
/// `{prefix}{i}.Value`, for consecutive `i` starting at `acc`'s index,
/// stopping at the first index where either key is missing.
pub open spec fn collected_attrs(
    form: Seq<(Seq<char>, Seq<char>)>,
    prefix: Seq<char>,
    i: int,
    acc: Seq<(Seq<char>, Seq<char>)>,
) -> Seq<(Seq<char>, Seq<char>)>
    decreases 100 - i,
    when i <= 100
{
    if i >= 100 {
        acc
    } else {
        let name = dict_get(form, prefix + dec_digits(i) + ".Name"@);
        let value = dict_get(form, prefix + dec_digits(i) + ".Value"@);
        if name is Some && value is Some {
            collected_attrs(form, prefix, i + 1, dict_insert(acc, name->0, value->0))
        } else {
            acc
        }
    }
}

/// The names read from numbered form keys `{prefix}{i}.Name`, for consecutive
/// `i` starting at 1, stopping at the first missing index.
pub open spec fn collected_names(
    form: Seq<(Seq<char>, Seq<char>)>,
    prefix: Seq<char>,
    i: int,
) -> Seq<Seq<char>>
    decreases 100 - i,
    when i <= 100
{
    if i >= 100 {
        Seq::empty()
    } else {
        match dict_get(form, prefix + dec_digits(i) + ".Name"@) {
            Some(k) => seq![k] + collected_names(form, prefix, i + 1),
            None => Seq::empty(),
        }
    }
}

fn collect_prefixed(form: &Dict, prefix: &str) -> (r: Dict)
    ensures
        r@ == collected_attrs(form@, prefix@, 1, Seq::empty()),
{
    let mut attributes = Dict::new();
    let mut count: u32 = 1;
    while count < 100
        invariant
            1 <= count <= 100,
            collected_attrs(form@, prefix@, 1, Seq::empty()) == collected_attrs(
                form@,
                prefix@,
                count as int,
                attributes@,
            ),
        decreases 100 - count,
    {
        let num = u32_to_string(count);
        let mut name_key = String::from_str(prefix);
        name_key.append(num.as_str());
        name_key.append(".Name");
        let mut value_key = String::from_str(prefix);
        value_key.append(num.as_str());
        value_key.append(".Value");
        assert(name_key@ == prefix@ + dec_digits(count as int) + ".Name"@);
        assert(value_key@ == prefix@ + dec_digits(count as int) + ".Value"@);
        let name = form.get(name_key.as_str());
        let value = form.get(value_key.as_str());
        match (name, value) {
            (Some(k), Some(v)) => {
                attributes.insert(k.clone(), v.clone());
                count += 1;
            },
            _ => {
                return attributes;
            },
        }
    }
    attributes
}

/// The queue and topic attributes carried in a request form, read from
/// `Attribute.{i}.Name` / `Attribute.{i}.Value` pairs.
pub fn get_attributes(form: &Dict) -> (r: Dict)
    ensures
        r@ == collected_attrs(form@, "Attribute."@, 1, Seq::empty()),
{
    collect_prefixed(form, "Attribute.")
}

/// The message attributes carried in a request form, read from
/// `MessageAttribute.{i}.Name` / `MessageAttribute.{i}.Value` pairs.
pub fn get_message_attributes(form: &Dict) -> (r: Dict)
    ensures
        r@ == collected_attrs(form@, "MessageAttribute."@, 1, Seq::empty()),
{
    collect_prefixed(form, "MessageAttribute.")
}

/// The message attribute names carried in a request form, read from
/// `MessageAttribute.{i}.Name` keys.
pub fn get_message_attribute_names(form: &Dict) -> (r: Vec<String>)
    ensures
        r.deep_view() == collected_names(form@, "MessageAttribute."@, 1),
{
    let mut names: Vec<String> = Vec::new();
    let mut count: u32 = 1;
    while count < 100
        invariant
            1 <= count <= 100,
            collected_names(form@, "MessageAttribute."@, 1) =~= names.deep_view()
                + collected_names(form@, "MessageAttribute."@, count as int),
        decreases 100 - count,
    {
        let num = u32_to_string(count);
        let mut name_key = String::from_str("MessageAttribute.");
        name_key.append(num.as_str());
        name_key.append(".Name");
        assert(name_key@ == "MessageAttribute."@ + dec_digits(count as int) + ".Name"@);
        match form.get(name_key.as_str()) {
            Some(k) => {
                names.push(k.clone());
                count += 1;
                assert(names.deep_view() =~= names.deep_view().drop_last().push(names@.last()@));
            },
            None => {
                proof {
                    assert(names.deep_view() + Seq::<Seq<char>>::empty() =~= names.deep_view());
                }
                return names;
            },
        }
    }
    proof {
        assert(names.deep_view() + Seq::<Seq<char>>::empty() =~= names.deep_view());
    }
    names
}

} // verus!
