//! The JSON text of the library's documents, as UTF-8 bytes: the ODRL
//! JSON-LD policy document and a data-offer document's fields. A
//! permission without constraints carries no `constraint` key.

use vstd::prelude::*;
use vstd::utf8::encode_utf8;
use crate::connector::DocumentFields;
use crate::offer::{constraint_views, permission_views, ConstraintSpec, ConstraintView, PermissionSpec, PermissionView};
use crate::policy::{PolicyDocument, PolicyView};

verus! {

/// The lower-case hex digit of `n` (below 16).
pub open spec fn hex_digit(n: u8) -> u8 {
    if n < 10 { (48 + n) as u8 } else { (87 + n) as u8 }
}

/// How one byte of a string's UTF-8 text is written inside a JSON string:
/// a quote and a backslash are escaped with a backslash, a control
/// character as `\u00XX`, and every other byte (all bytes of non-ASCII
/// characters among them) as itself.
pub open spec fn escape_byte(b: u8) -> Seq<u8> {
    if b == 34 {
        seq![92u8, 34u8]
    } else if b == 92 {
        seq![92u8, 92u8]
    } else if b < 32 {
        seq![92u8, 117u8, 48u8, 48u8, hex_digit(b / 16), hex_digit(b % 16)]
    } else {
        seq![b]
    }
}

/// The bytes `bs`, escaped one by one.
pub open spec fn escaped(bs: Seq<u8>) -> Seq<u8>
    decreases bs.len(),
{
    if bs.len() == 0 {
        Seq::empty()
    } else {
        escaped(bs.drop_last()) + escape_byte(bs.last())
    }
}

/// The JSON string literal of a text.
pub open spec fn json_str(s: Seq<char>) -> Seq<u8> {
    seq![34u8] + escaped(encode_utf8(s)) + seq![34u8]
}

/// Appends the UTF-8 bytes of `s` unchanged.
fn push_raw(out: &mut Vec<u8>, s: &str)
    ensures
        final(out)@ == old(out)@ + encode_utf8(s@),
{
    let bs = s.as_bytes();
    let ghost start = out@;
    let mut i: usize = 0;
    while i < bs.len()
        invariant
            i <= bs@.len(),
            bs@ == encode_utf8(s@),
            out@ == start + bs@.take(i as int),
        decreases bs.len() - i,
    {
        out.push(bs[i]);
        assert(bs@.take(i + 1) =~= bs@.take(i as int).push(bs@[i as int]));
        i = i + 1;
    }
    assert(bs@.take(i as int) =~= bs@);
}

fn push_hex_digit(out: &mut Vec<u8>, n: u8)
    requires
        n < 16,
    ensures
        final(out)@ == old(out)@.push(hex_digit(n)),
{
    if n < 10 {
        out.push(48 + n);
    } else {
        out.push(87 + n);
    }
}

/// Appends the JSON string literal of `s`.
fn push_json_str(out: &mut Vec<u8>, s: &str)
    ensures
        final(out)@ == old(out)@ + json_str(s@),
{
    let bs = s.as_bytes();
    let ghost start = out@;
    out.push(34);
    let mut i: usize = 0;
    while i < bs.len()
        invariant
            i <= bs@.len(),
            bs@ == encode_utf8(s@),
            out@ == start + seq![34u8] + escaped(bs@.take(i as int)),
        decreases bs.len() - i,
    {
        let b = bs[i];
        let ghost before = out@;
        if b == 34 {
            out.push(92);
            out.push(34);
        } else if b == 92 {
            out.push(92);
            out.push(92);
        } else if b < 32 {
            out.push(92);
            out.push(117);
            out.push(48);
            out.push(48);
            push_hex_digit(out, b / 16);
            push_hex_digit(out, b % 16);
        } else {
            out.push(b);
        }
        assert(out@ =~= before + escape_byte(b));
        assert(bs@.take(i + 1).drop_last() =~= bs@.take(i as int));
        i = i + 1;
    }
    assert(bs@.take(i as int) =~= bs@);
    out.push(34);
    assert(out@ =~= start + json_str(s@));
}

/// The JSON object of a constraint.
pub open spec fn constraint_json(c: ConstraintView) -> Seq<u8> {
    encode_utf8("{\"leftOperand\":"@) + json_str(c.left_operand) + encode_utf8(",\"operator\":"@)
        + json_str(c.operator) + encode_utf8(",\"rightOperand\":"@) + json_str(c.right_operand) + encode_utf8("}"@)
}

/// The constraints' JSON objects, separated by commas.
pub open spec fn constraints_json(cs: Seq<ConstraintView>) -> Seq<u8>
    decreases cs.len(),
{
    if cs.len() == 0 {
        Seq::empty()
    } else if cs.len() == 1 {
        constraint_json(cs[0])
    } else {
        constraints_json(cs.drop_last()) + seq![44u8] + constraint_json(cs.last())
    }
}

/// The JSON object of a permission: its action, and its constraints under
/// `constraint` when it has any.
pub open spec fn permission_json(p: PermissionView) -> Seq<u8> {
    encode_utf8("{\"action\":"@) + json_str(p.action) + (if p.constraints.len() == 0 {
        Seq::empty()
    } else {
        encode_utf8(",\"constraint\":["@) + constraints_json(p.constraints) + encode_utf8("]"@)
    }) + encode_utf8("}"@)
}

/// The permissions' JSON objects, separated by commas.
pub open spec fn permissions_json(ps: Seq<PermissionView>) -> Seq<u8>
    decreases ps.len(),
{
    if ps.len() == 0 {
        Seq::empty()
    } else if ps.len() == 1 {
        permission_json(ps[0])
    } else {
        permissions_json(ps.drop_last()) + seq![44u8] + permission_json(ps.last())
    }
}

/// The ODRL JSON-LD object of a policy document.
pub open spec fn policy_json(d: PolicyView) -> Seq<u8> {
    encode_utf8("{\"@context\":"@) + json_str(d.context) + encode_utf8(",\"@id\":"@) + json_str(d.id)
        + encode_utf8(",\"@type\":"@) + json_str(d.policy_type) + encode_utf8(",\"target\":"@) + json_str(d.target)
        + encode_utf8(",\"assigner\":"@) + json_str(d.assigner) + encode_utf8(",\"permission\":["@)
        + permissions_json(d.permissions) + encode_utf8("]}"@)
}

/// The JSON object of a data-offer document's fields.
pub open spec fn fields_json(file_path: Seq<char>, media_type: Seq<char>, policy: PolicyView) -> Seq<u8> {
    encode_utf8("{\"filePath\":"@) + json_str(file_path) + encode_utf8(",\"mediaType\":"@) + json_str(media_type)
        + encode_utf8(",\"policy\":"@) + policy_json(policy) + encode_utf8("}"@)
}

fn push_constraint(out: &mut Vec<u8>, c: &ConstraintSpec)
    ensures
        final(out)@ == old(out)@ + constraint_json(c@),
{
    let ghost start = out@;
    push_raw(out, "{\"leftOperand\":");
    push_json_str(out, c.left_operand.as_str());
    push_raw(out, ",\"operator\":");
    push_json_str(out, c.operator.as_str());
    push_raw(out, ",\"rightOperand\":");
    push_json_str(out, c.right_operand.as_str());
    push_raw(out, "}");
    assert(out@ =~= start + constraint_json(c@));
}

fn push_constraints(out: &mut Vec<u8>, cs: &Vec<ConstraintSpec>)
    ensures
        final(out)@ == old(out)@ + constraints_json(constraint_views(cs@)),
{
    let ghost start = out@;
    let ghost vs = constraint_views(cs@);
    let mut i: usize = 0;
    while i < cs.len()
        invariant
            i <= cs@.len(),
            vs == constraint_views(cs@),
            out@ == start + constraints_json(vs.take(i as int)),
        decreases cs.len() - i,
    {
        let ghost before = out@;
        if i > 0 {
            out.push(44);
        }
        push_constraint(out, &cs[i]);
        proof {
            let t = vs.take(i + 1);
            assert(t.drop_last() =~= vs.take(i as int));
            assert(t.last() == cs@[i as int]@);
            if i == 0 {
                assert(out@ =~= start + constraints_json(t));
            } else {
                assert(out@ =~= start + constraints_json(t));
            }
        }
        i = i + 1;
    }
    assert(vs.take(i as int) =~= vs);
}

fn push_permission(out: &mut Vec<u8>, p: &PermissionSpec)
    ensures
        final(out)@ == old(out)@ + permission_json(p@),
{
    let ghost start = out@;
    push_raw(out, "{\"action\":");
    push_json_str(out, p.action.as_str());
    let ghost mid = out@;
    if p.constraints.len() > 0 {
        push_raw(out, ",\"constraint\":[");
        push_constraints(out, &p.constraints);
        push_raw(out, "]");
    }
    push_raw(out, "}");
    assert(out@ =~= start + permission_json(p@));
}

fn push_permissions(out: &mut Vec<u8>, ps: &Vec<PermissionSpec>)
    ensures
        final(out)@ == old(out)@ + permissions_json(permission_views(ps@)),
{
    let ghost start = out@;
    let ghost vs = permission_views(ps@);
    let mut i: usize = 0;
    while i < ps.len()
        invariant
            i <= ps@.len(),
            vs == permission_views(ps@),
            out@ == start + permissions_json(vs.take(i as int)),
        decreases ps.len() - i,
    {
        if i > 0 {
            out.push(44);
        }
        push_permission(out, &ps[i]);
        proof {
            let t = vs.take(i + 1);
            assert(t.drop_last() =~= vs.take(i as int));
            assert(t.last() == ps@[i as int]@);
            assert(out@ =~= start + permissions_json(t));
        }
        i = i + 1;
    }
    assert(vs.take(i as int) =~= vs);
}

fn push_policy(out: &mut Vec<u8>, doc: &PolicyDocument)
    ensures
        final(out)@ == old(out)@ + policy_json(doc@),
{
    let ghost start = out@;
    let ghost d = doc@;
    push_raw(out, "{\"@context\":");
    push_json_str(out, doc.context.as_str());
    let ghost a1 = encode_utf8("{\"@context\":"@) + json_str(d.context);
    assert(out@ =~= start + a1);
    push_raw(out, ",\"@id\":");
    push_json_str(out, doc.id.as_str());
    let ghost a2 = a1 + encode_utf8(",\"@id\":"@) + json_str(d.id);
    assert(out@ =~= start + a2);
    push_raw(out, ",\"@type\":");
    push_json_str(out, doc.policy_type.as_str());
    let ghost a3 = a2 + encode_utf8(",\"@type\":"@) + json_str(d.policy_type);
    assert(out@ =~= start + a3);
    push_raw(out, ",\"target\":");
    push_json_str(out, doc.target.as_str());
    let ghost a4 = a3 + encode_utf8(",\"target\":"@) + json_str(d.target);
    assert(out@ =~= start + a4);
    push_raw(out, ",\"assigner\":");
    push_json_str(out, doc.assigner.as_str());
    let ghost a5 = a4 + encode_utf8(",\"assigner\":"@) + json_str(d.assigner);
    assert(out@ =~= start + a5);
    push_raw(out, ",\"permission\":[");
    push_permissions(out, &doc.permissions);
    let ghost a6 = a5 + encode_utf8(",\"permission\":["@) + permissions_json(d.permissions);
    assert(out@ =~= start + a6);
    push_raw(out, "]}");
    assert(out@ =~= start + (a6 + encode_utf8("]}"@)));
    assert(a6 + encode_utf8("]}"@) == policy_json(d));
}

/// The ODRL JSON-LD text of a policy document, as UTF-8 bytes.
pub fn policy_json_bytes(doc: &PolicyDocument) -> (bytes: Vec<u8>)
    ensures
        bytes@ == policy_json(doc@),
{
    let mut out: Vec<u8> = Vec::new();
    push_policy(&mut out, doc);
    assert(out@ =~= policy_json(doc@));
    out
}

/// The JSON text of a data-offer document's fields (`filePath`,
/// `mediaType` and `policy`), as UTF-8 bytes.
pub fn fields_json_bytes(fields: &DocumentFields) -> (bytes: Vec<u8>)
    ensures
        bytes@ == fields_json(fields.file_path@, fields.media_type@, fields.policy@),
{
    let mut out: Vec<u8> = Vec::new();
    push_raw(&mut out, "{\"filePath\":");
    push_json_str(&mut out, fields.file_path.as_str());
    push_raw(&mut out, ",\"mediaType\":");
    push_json_str(&mut out, fields.media_type.as_str());
    push_raw(&mut out, ",\"policy\":");
    push_policy(&mut out, &fields.policy);
    push_raw(&mut out, "}");
    assert(out@ =~= fields_json(fields.file_path@, fields.media_type@, fields.policy@));
    out
}

/// Any two consecutive parts of a constraint list are written as the text
/// of the first part, one comma, and the text of the second: the list of
/// `n` constraints is their `n` objects joined by exactly `n - 1` commas,
/// in order.
pub proof fn law_constraint_list_is_comma_joined(cs: Seq<ConstraintView>, k: int)
    requires
        0 < k < cs.len(),
    ensures
        constraints_json(cs) == constraints_json(cs.take(k)) + seq![44u8] + constraints_json(cs.skip(k)),
    decreases cs.len(),
{
    if k == cs.len() - 1 {
        assert(cs.take(k) =~= cs.drop_last());
        assert(cs.skip(k) =~= seq![cs.last()]);
        assert(constraints_json(cs.skip(k)) == constraint_json(cs.last()));
    } else {
        let d = cs.drop_last();
        law_constraint_list_is_comma_joined(d, k);
        assert(d.take(k) =~= cs.take(k));
        let r = cs.skip(k);
        assert(r.len() >= 2);
        assert(d.skip(k) =~= r.drop_last());
        assert(r.last() == cs.last());
        assert(constraints_json(r) == constraints_json(r.drop_last()) + seq![44u8] + constraint_json(r.last()));
        assert(constraints_json(cs) =~= constraints_json(cs.take(k)) + seq![44u8] + constraints_json(cs.skip(k)));
    }
}

/// A list of one constraint is that constraint's object, and an empty list
/// is written as nothing.
pub proof fn law_short_constraint_lists(c: ConstraintView)
    ensures
        constraints_json(seq![c]) == constraint_json(c),
        constraints_json(Seq::<ConstraintView>::empty()) == Seq::<u8>::empty(),
{
}

/// Any two consecutive parts of a permission list are written as the text
/// of the first part, one comma, and the text of the second: the list of
/// `n` permissions is their `n` objects joined by exactly `n - 1` commas,
/// in order.
pub proof fn law_permission_list_is_comma_joined(ps: Seq<PermissionView>, k: int)
    requires
        0 < k < ps.len(),
    ensures
        permissions_json(ps) == permissions_json(ps.take(k)) + seq![44u8] + permissions_json(ps.skip(k)),
    decreases ps.len(),
{
    if k == ps.len() - 1 {
        assert(ps.take(k) =~= ps.drop_last());
        assert(ps.skip(k) =~= seq![ps.last()]);
        assert(permissions_json(ps.skip(k)) == permission_json(ps.last()));
    } else {
        let d = ps.drop_last();
        law_permission_list_is_comma_joined(d, k);
        assert(d.take(k) =~= ps.take(k));
        let r = ps.skip(k);
        assert(r.len() >= 2);
        assert(d.skip(k) =~= r.drop_last());
        assert(r.last() == ps.last());
        assert(permissions_json(r) == permissions_json(r.drop_last()) + seq![44u8] + permission_json(r.last()));
        assert(permissions_json(ps) =~= permissions_json(ps.take(k)) + seq![44u8] + permissions_json(ps.skip(k)));
    }
}

/// A list of one permission is that permission's object, and an empty
/// list is written as nothing.
pub proof fn law_short_permission_lists(p: PermissionView)
    ensures
        permissions_json(seq![p]) == permission_json(p),
        permissions_json(Seq::<PermissionView>::empty()) == Seq::<u8>::empty(),
{
}

/// The value of a hex digit byte (either case).
pub open spec fn hex_value(b: u8) -> Option<nat> {
    if 48 <= b && b <= 57 {
        Some((b - 48) as nat)
    } else if 97 <= b && b <= 102 {
        Some((b - 87) as nat)
    } else if 65 <= b && b <= 70 {
        Some((b - 55) as nat)
    } else {
        None
    }
}

/// The byte an RFC 8259 two-character escape `\e` stands for.
pub open spec fn short_escape(e: u8) -> Option<u8> {
    if e == 34 { Some(34u8) }
    else if e == 92 { Some(92u8) }
    else if e == 47 { Some(47u8) }
    else if e == 98 { Some(8u8) }
    else if e == 102 { Some(12u8) }
    else if e == 110 { Some(10u8) }
    else if e == 114 { Some(13u8) }
    else if e == 116 { Some(9u8) }
    else { None }
}

pub open spec fn prepend(b: u8, r: Option<Seq<u8>>) -> Option<Seq<u8>> {
    match r {
        Some(t) => Some(seq![b] + t),
        None => None,
    }
}

/// Decodes the bytes between the quotes of a JSON string as RFC 8259 reads
/// them: a raw quote or control character ends the decoding with `None`, a
/// backslash must start one of the escapes RFC 8259 defines, and every
/// other byte stands for itself. A `\u` escape must have four hex digits;
/// this decoder takes those below U+0080, each standing for one byte, and
/// answers `None` for the others.
pub open spec fn json_unescape(s: Seq<u8>) -> Option<Seq<u8>>
    decreases s.len(),
{
    if s.len() == 0 {
        Some(Seq::empty())
    } else if s[0] == 34 || s[0] < 32 {
        None
    } else if s[0] != 92 {
        prepend(s[0], json_unescape(s.skip(1)))
    } else if s.len() < 2 {
        None
    } else if short_escape(s[1]) is Some {
        prepend(short_escape(s[1])->0, json_unescape(s.skip(2)))
    } else if s[1] == 117 && s.len() >= 6 && hex_value(s[2]) is Some && hex_value(s[3]) is Some
        && hex_value(s[4]) is Some && hex_value(s[5]) is Some {
        let v = hex_value(s[2])->0 * 4096 + hex_value(s[3])->0 * 256 + hex_value(s[4])->0 * 16 + hex_value(s[5])->0;
        if v < 128 {
            prepend(v as u8, json_unescape(s.skip(6)))
        } else {
            None
        }
    } else {
        None
    }
}

proof fn lemma_escaped_front(bs: Seq<u8>)
    requires
        bs.len() > 0,
    ensures
        escaped(bs) == escape_byte(bs[0]) + escaped(bs.drop_first()),
    decreases bs.len(),
{
    if bs.len() == 1 {
        assert(bs.drop_last() =~= Seq::<u8>::empty());
        assert(bs.drop_first() =~= Seq::<u8>::empty());
        assert(escaped(bs) =~= escape_byte(bs[0]) + escaped(bs.drop_first()));
    } else {
        let d = bs.drop_last();
        lemma_escaped_front(d);
        assert(d.drop_first() =~= bs.drop_first().drop_last());
        assert(bs.drop_first().last() == bs.last());
        assert(escaped(bs) =~= escape_byte(bs[0]) + escaped(bs.drop_first()));
    }
}

proof fn lemma_hex_digit_value(n: u8)
    requires
        n < 16,
    ensures
        hex_value(hex_digit(n)) == Some(n as nat),
{
}

proof fn lemma_unescape_unit(b: u8, rest: Seq<u8>)
    ensures
        json_unescape(escape_byte(b) + rest) == prepend(b, json_unescape(rest)),
{
    let s = escape_byte(b) + rest;
    if b == 34 || b == 92 {
        assert(s.skip(2) =~= rest);
    } else if b < 32 {
        lemma_hex_digit_value(b / 16);
        lemma_hex_digit_value(b % 16);
        assert(s[2] == 48u8 && s[3] == 48u8);
        assert(s[4] == hex_digit(b / 16) && s[5] == hex_digit(b % 16));
        assert(s.skip(6) =~= rest);
        let v = hex_value(s[2])->0 * 4096 + hex_value(s[3])->0 * 256 + hex_value(s[4])->0 * 16 + hex_value(s[5])->0;
        assert(v == b);
        assert(v as u8 == b);
    } else {
        assert(s.skip(1) =~= rest);
    }
}

/// What the library writes between a string's quotes decodes, as RFC 8259
/// reads a JSON string, back to exactly the bytes it escaped: only `\"`,
/// `\\` and `\u00XX` (for control characters) are produced, and every other
/// byte is copied unchanged.
pub proof fn law_escaped_decodes_back(bs: Seq<u8>)
    ensures
        json_unescape(escaped(bs)) == Some(bs),
    decreases bs.len(),
{
    if bs.len() == 0 {
        assert(escaped(bs) =~= Seq::<u8>::empty());
    } else {
        lemma_escaped_front(bs);
        law_escaped_decodes_back(bs.drop_first());
        lemma_unescape_unit(bs[0], escaped(bs.drop_first()));
        assert(seq![bs[0]] + bs.drop_first() =~= bs);
    }
}

/// Every JSON string literal the library writes is a quote, a body that
/// decodes under RFC 8259 to exactly the UTF-8 bytes of its text (and so
/// holds no unescaped quote), and a closing quote.
pub proof fn law_json_str_decodes_back(s: Seq<char>)
    ensures
        json_str(s).len() >= 2,
        json_str(s)[0] == 34u8,
        json_str(s).last() == 34u8,
        json_unescape(json_str(s).subrange(1, json_str(s).len() - 1)) == Some(encode_utf8(s)),
{
    let j = json_str(s);
    law_escaped_decodes_back(encode_utf8(s));
    assert(j.subrange(1, j.len() - 1) =~= escaped(encode_utf8(s)));
}

} // verus!
