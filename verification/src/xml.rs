use vstd::prelude::*;

use crate::misc::{escape_seq, escape_xml, get_new_id};

verus! {

/// The response metadata element every successful response ends with.
pub open spec fn response_meta(request_id: Seq<char>) -> Seq<char> {
    "<ResponseMetadata><RequestId>"@ + request_id + "</RequestId></ResponseMetadata>"@
}

/// A successful response: the given opening content, then response metadata
/// under some fresh 36-character request id, then the closing tag.
pub open spec fn meta_response(out: Seq<char>, head: Seq<char>, tail: Seq<char>) -> bool {
    exists|rid: Seq<char>| rid.len() == 36 && out == head + response_meta(rid) + tail
}

/// Append the response metadata element carrying `request_id`.
pub fn append_meta(r: &mut String, request_id: &String)
    ensures
        final(r)@ == old(r)@ + response_meta(request_id@),
{
    r.append("<ResponseMetadata><RequestId>");
    r.append(request_id.as_str());
    r.append("</RequestId></ResponseMetadata>");
}

/// Build the standard response: the given opening content, then response
/// metadata under a fresh request id, then the closing tag.
pub fn finish_response(head: String, tail: &str) -> (r: String)
    ensures
        meta_response(r@, head@, tail@),
{
    let rid = get_new_id();
    let mut r = head;
    append_meta(&mut r, &rid);
    r.append(tail);
    proof {
        assert(r@ == head@ + response_meta(rid@) + tail@);
    }
    r
}

/// One `<Attribute>` element per entry, names and values escaped.
pub open spec fn escaped_attrs_xml(attrs: Seq<(Seq<char>, Seq<char>)>) -> Seq<char>
    decreases attrs.len(),
{
    if attrs.len() == 0 {
        Seq::empty()
    } else {
        escaped_attrs_xml(attrs.drop_last()) + "<Attribute><Name>"@ + escape_seq(attrs.last().0)
            + "</Name><Value>"@ + escape_seq(attrs.last().1) + "</Value></Attribute>"@
    }
}

/// Rendering a value as XML elements under a given tag name.
pub trait FormatXML {
    /// What `to_xml_string` returns.
    spec fn xml_spec(&self, key: Seq<char>) -> Seq<char>;

    fn to_xml_string(&self, key: &str) -> (r: String)
        ensures
            r@ == self.xml_spec(key@),
    ;
}

impl FormatXML for String {
    open spec fn xml_spec(&self, key: Seq<char>) -> Seq<char> {
        "<"@ + key + ">"@ + escape_seq(self@) + "</"@ + key + ">"@
    }

    fn to_xml_string(&self, key: &str) -> (r: String) {
        let mut r = String::from_str("<");
        r.append(key);
        r.append(">");
        let escaped = escape_xml(self.as_str());
        r.append(escaped.as_str());
        r.append("</");
        r.append(key);
        r.append(">");
        r
    }
}

/// The elements of a sequence rendered one after the other.
pub open spec fn seq_xml<T: FormatXML>(s: Seq<T>, key: Seq<char>) -> Seq<char>
    decreases s.len(),
{
    if s.len() == 0 {
        Seq::empty()
    } else {
        seq_xml(s.drop_last(), key) + s.last().xml_spec(key)
    }
}

impl<T: FormatXML> FormatXML for Vec<T> {
    open spec fn xml_spec(&self, key: Seq<char>) -> Seq<char> {
        seq_xml(self@, key)
    }

    fn to_xml_string(&self, key: &str) -> (r: String) {
        let mut r = String::new();
        let mut i: usize = 0;
        while i < self.len()
            invariant
                i <= self@.len(),
                r@ =~= seq_xml(self@.take(i as int), key@),
            decreases self@.len() - i,
        {
            let piece = self[i].to_xml_string(key);
            r.append(piece.as_str());
            proof {
                let t = self@.take(i + 1);
                assert(t.drop_last() =~= self@.take(i as int));
                assert(t.last() == self@[i as int]);
            }
            i += 1;
            assert(r@ =~= seq_xml(self@.take(i as int), key@));
        }
        proof {
            assert(self@.take(self@.len() as int) =~= self@);
        }
        r
    }
}

} // verus!
