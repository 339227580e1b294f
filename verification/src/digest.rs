//! Deterministic identities for schedule-independent kernel artifacts.
//!
//! A digest is blake3 over the compact JSON text of a payload that names its schema. Payload
//! fields come in a fixed order and every collection is an ordered sequence, so the text is
//! deterministic. The text of a kernel itself is handed in by the caller (its canonical
//! JSON encoding); this module frames it, and builds every other payload (modules,
//! compositions, facet pairs) from kernel digests, names and tables, escaping strings as
//! JSON requires. The wire shape of a digest (`algorithm` plus lowercase `hex`) is the one
//! used at repository boundaries, so a digest can be carried verbatim inside receipts.
use vstd::prelude::*;

use crate::compose::{KernelComposition, SharedBuffer, StageOperand, KERNEL_COMPOSITION_SCHEMA};
use crate::facet::{
    FacetOperandRole, FacetPairKernel, FacetSide, SwapParity, FACET_NORMAL_CONVENTION, FACET_PAIR_KERNEL_SCHEMA,
};

verus! {

/// Schema of the payload behind [`kernel_digest`].
pub const KERNEL_DIGEST_SCHEMA: &'static str = "malleus-kernel-digest/1";

/// Schema of the payload behind [`module_digest`].
pub const MODULE_DIGEST_SCHEMA: &'static str = "malleus-module-digest/1";

/// The 32-byte blake3 hash of a byte string.
pub uninterp spec fn blake3_hash(bytes: Seq<u8>) -> Seq<u8>;

/// Calls `blake3::hash`, the one-shot blake3 hash of its input, and returns the 32 bytes of
/// the resulting `Hash` (`Hash::as_bytes`). The contract names the result and states its
/// length, which `Hash` fixes at 32 bytes; the hash function itself is not restated.
#[verifier::external_body]
fn blake3_bytes(bytes: &[u8]) -> (hash: Vec<u8>)
    ensures
        hash@ == blake3_hash(bytes@),
        hash@.len() == 32,
{
    blake3::hash(bytes).as_bytes().to_vec()
}

// ---------------------------------------------------------------------------------------------
// Lowercase hexadecimal and decimal text
// ---------------------------------------------------------------------------------------------
/// The lowercase hexadecimal digit of a value below 16.
pub open spec fn hex_char(n: u8) -> char {
    if n == 0 {
        '0'
    } else if n == 1 {
        '1'
    } else if n == 2 {
        '2'
    } else if n == 3 {
        '3'
    } else if n == 4 {
        '4'
    } else if n == 5 {
        '5'
    } else if n == 6 {
        '6'
    } else if n == 7 {
        '7'
    } else if n == 8 {
        '8'
    } else if n == 9 {
        '9'
    } else if n == 10 {
        'a'
    } else if n == 11 {
        'b'
    } else if n == 12 {
        'c'
    } else if n == 13 {
        'd'
    } else if n == 14 {
        'e'
    } else {
        'f'
    }
}

/// Every byte as two lowercase hexadecimal digits, high nibble first.
pub open spec fn lower_hex(bytes: Seq<u8>) -> Seq<char>
    decreases bytes.len(),
{
    if bytes.len() == 0 {
        Seq::empty()
    } else {
        lower_hex(bytes.drop_last()) + seq![hex_char(bytes.last() / 16), hex_char(bytes.last() % 16)]
    }
}

/// Whether a character is a lowercase hexadecimal digit.
pub open spec fn is_lower_hex_digit(c: char) -> bool {
    ('0' <= c && c <= '9') || ('a' <= c && c <= 'f')
}

/// The text of a blake3 digest: 64 lowercase hexadecimal digits, two for each of the 32 bytes
/// of the hash.
pub open spec fn digest_hex_text(s: Seq<char>) -> bool {
    &&& s.len() == 64
    &&& forall|i: int| 0 <= i < s.len() ==> is_lower_hex_digit(#[trigger] s[i])
}

/// Lowercase hexadecimal text has two digits per byte.
proof fn lemma_lower_hex(bytes: Seq<u8>)
    ensures
        lower_hex(bytes).len() == 2 * bytes.len(),
        forall|i: int| 0 <= i < lower_hex(bytes).len() ==> is_lower_hex_digit(#[trigger] lower_hex(bytes)[i]),
    decreases bytes.len(),
{
    if bytes.len() > 0 {
        lemma_lower_hex(bytes.drop_last());
        let prev = lower_hex(bytes.drop_last());
        let hi = hex_char(bytes.last() / 16);
        let lo = hex_char(bytes.last() % 16);
        assert(is_lower_hex_digit(hi) && is_lower_hex_digit(lo));
        assert forall|i: int| 0 <= i < lower_hex(bytes).len() implies is_lower_hex_digit(#[trigger] lower_hex(bytes)[i]) by {
            if i < prev.len() {
                assert(lower_hex(bytes)[i] == prev[i]);
            }
        }
    }
}

/// The decimal digits of a number, most significant first.
pub open spec fn decimal(n: nat) -> Seq<char>
    decreases n,
{
    if n < 10 {
        seq![hex_char(n as u8)]
    } else {
        decimal(n / 10) + seq![hex_char((n % 10) as u8)]
    }
}

fn digit_text(n: u8) -> (s: &'static str)
    requires
        n < 16,
    ensures
        s@ == seq![hex_char(n)],
{
    if n == 0 {
        proof {
            reveal_strlit("0");
        }
        "0"
    } else if n == 1 {
        proof {
            reveal_strlit("1");
        }
        "1"
    } else if n == 2 {
        proof {
            reveal_strlit("2");
        }
        "2"
    } else if n == 3 {
        proof {
            reveal_strlit("3");
        }
        "3"
    } else if n == 4 {
        proof {
            reveal_strlit("4");
        }
        "4"
    } else if n == 5 {
        proof {
            reveal_strlit("5");
        }
        "5"
    } else if n == 6 {
        proof {
            reveal_strlit("6");
        }
        "6"
    } else if n == 7 {
        proof {
            reveal_strlit("7");
        }
        "7"
    } else if n == 8 {
        proof {
            reveal_strlit("8");
        }
        "8"
    } else if n == 9 {
        proof {
            reveal_strlit("9");
        }
        "9"
    } else if n == 10 {
        proof {
            reveal_strlit("a");
        }
        "a"
    } else if n == 11 {
        proof {
            reveal_strlit("b");
        }
        "b"
    } else if n == 12 {
        proof {
            reveal_strlit("c");
        }
        "c"
    } else if n == 13 {
        proof {
            reveal_strlit("d");
        }
        "d"
    } else if n == 14 {
        proof {
            reveal_strlit("e");
        }
        "e"
    } else {
        proof {
            reveal_strlit("f");
        }
        "f"
    }
}

/// The lowercase hexadecimal text of a byte string.
pub fn hex_text(bytes: &Vec<u8>) -> (s: String)
    ensures
        s@ == lower_hex(bytes@),
{
    let mut s = String::new();
    let mut i: usize = 0;
    while i < bytes.len()
        invariant
            i <= bytes@.len(),
            s@ == lower_hex(bytes@.take(i as int)),
        decreases bytes@.len() - i,
    {
        let b = bytes[i];
        s.append(digit_text(b / 16));
        s.append(digit_text(b % 16));
        i = i + 1;
        assert(bytes@.take(i as int).drop_last() =~= bytes@.take((i - 1) as int));
    }
    assert(bytes@.take(bytes@.len() as int) =~= bytes@);
    s
}

/// Append the decimal text of `n`.
pub fn append_decimal(out: &mut String, n: usize)
    ensures
        final(out)@ == old(out)@ + decimal(n as nat),
    decreases n,
{
    if n >= 10 {
        append_decimal(out, n / 10);
    }
    out.append(digit_text((n % 10) as u8));
    proof {
        if n < 10 {
            assert(n % 10 == n);
        }
    }
}

// ---------------------------------------------------------------------------------------------
// JSON text
// ---------------------------------------------------------------------------------------------
/// How one character appears inside a JSON string: quote, backslash and control characters
/// escaped, everything else verbatim.
pub open spec fn json_escape(c: char) -> Seq<char> {
    if c == '"' {
        seq!['\\', '"']
    } else if c == '\\' {
        seq!['\\', '\\']
    } else if c == '\u{8}' {
        seq!['\\', 'b']
    } else if c == '\t' {
        seq!['\\', 't']
    } else if c == '\n' {
        seq!['\\', 'n']
    } else if c == '\u{c}' {
        seq!['\\', 'f']
    } else if c == '\r' {
        seq!['\\', 'r']
    } else if (c as u32) < 32 {
        seq!['\\', 'u', '0', '0', hex_char(((c as u32) / 16) as u8), hex_char(((c as u32) % 16) as u8)]
    } else {
        seq![c]
    }
}

pub open spec fn json_body(s: Seq<char>, n: int) -> Seq<char>
    decreases n,
{
    if n <= 0 {
        Seq::empty()
    } else {
        json_body(s, n - 1) + json_escape(s[n - 1])
    }
}

/// A string as a JSON string literal.
pub open spec fn json_string(s: Seq<char>) -> Seq<char> {
    seq!['"'] + json_body(s, s.len() as int) + seq!['"']
}

/// Append `s` as a JSON string literal.
pub fn append_json_string(out: &mut String, s: &str)
    ensures
        final(out)@ == old(out)@ + json_string(s@),
{
    let ghost start = out@;
    proof {
        reveal_strlit("\"");
    }
    out.append("\"");
    let n = s.unicode_len();
    let mut i: usize = 0;
    while i < n
        invariant
            i <= n,
            n == s@.len(),
            out@ == start + seq!['"'] + json_body(s@, i as int),
        decreases n - i,
    {
        let c = s.get_char(i);
        let code = c as u32;
        if c == '"' {
            proof {
                reveal_strlit("\\\"");
            }
            out.append("\\\"");
        } else if c == '\\' {
            proof {
                reveal_strlit("\\\\");
            }
            out.append("\\\\");
        } else if c == '\u{8}' {
            proof {
                reveal_strlit("\\b");
            }
            out.append("\\b");
        } else if c == '\t' {
            proof {
                reveal_strlit("\\t");
            }
            out.append("\\t");
        } else if c == '\n' {
            proof {
                reveal_strlit("\\n");
            }
            out.append("\\n");
        } else if c == '\u{c}' {
            proof {
                reveal_strlit("\\f");
            }
            out.append("\\f");
        } else if c == '\r' {
            proof {
                reveal_strlit("\\r");
            }
            out.append("\\r");
        } else if code < 32 {
            proof {
                reveal_strlit("\\u00");
            }
            out.append("\\u00");
            out.append(digit_text((code / 16) as u8));
            out.append(digit_text((code % 16) as u8));
        } else {
            out.append(s.substring_char(i, i + 1));
        }
        i = i + 1;
        assert(out@ =~= start + seq!['"'] + json_body(s@, i as int));
    }
    proof {
        reveal_strlit("\"");
    }
    out.append("\"");
    assert(out@ =~= start + json_string(s@));
}

// ---------------------------------------------------------------------------------------------
// Digests
// ---------------------------------------------------------------------------------------------
/// A content digest that records its algorithm.
#[derive(Clone, Debug, PartialEq, Eq, PartialOrd, Ord, Hash)]
pub struct Digest {
    pub algorithm: String,
    pub hex: String,
}

/// The digest text of a payload: blake3 over its UTF-8 bytes, in lowercase hexadecimal.
pub open spec fn blake3_hex(text: Seq<char>) -> Seq<char> {
    lower_hex(blake3_hash(vstd::utf8::encode_utf8(text)))
}

/// The JSON object of a digest.
pub open spec fn digest_json(algorithm: Seq<char>, hex: Seq<char>) -> Seq<char> {
    "{\"algorithm\":"@ + json_string(algorithm) + ",\"hex\":"@ + json_string(hex) + "}"@
}

impl Digest {
    /// The blake3 digest of a byte string.
    pub fn blake3(bytes: &[u8]) -> (d: Self)
        ensures
            d.algorithm@ == "blake3"@,
            d.hex@ == lower_hex(blake3_hash(bytes@)),
            digest_hex_text(d.hex@),
    {
        let hash = blake3_bytes(bytes);
        proof {
            lemma_lower_hex(hash@);
        }
        Digest { algorithm: "blake3".to_owned(), hex: hex_text(&hash) }
    }

    /// The digest of a payload text: blake3 over its UTF-8 bytes.
    pub fn of_payload(text: &str) -> (d: Self)
        ensures
            d.algorithm@ == "blake3"@,
            d.hex@ == blake3_hex(text@),
            digest_hex_text(d.hex@),
    {
        Self::blake3(text.as_bytes())
    }

    /// `algorithm:hex`.
    pub fn to_string(&self) -> (s: String)
        ensures
            s@ == self.algorithm@ + ":"@ + self.hex@,
    {
        let mut s = self.algorithm.clone();
        s.append(":");
        s.append(self.hex.as_str());
        s
    }

    /// Append this digest as a JSON object.
    pub fn append_json(&self, out: &mut String)
        ensures
            final(out)@ == old(out)@ + digest_json(self.algorithm@, self.hex@),
    {
        out.append("{\"algorithm\":");
        append_json_string(out, self.algorithm.as_str());
        out.append(",\"hex\":");
        append_json_string(out, self.hex.as_str());
        out.append("}");
    }
}

/// The payload behind a kernel digest, around the kernel's JSON text.
pub open spec fn kernel_payload(kernel_json: Seq<char>) -> Seq<char> {
    "{\"schema\":"@ + json_string(KERNEL_DIGEST_SCHEMA@) + ",\"kernel\":"@ + kernel_json + "}"@
}

/// Identity of one schedule-independent kernel, given its canonical JSON text: its name,
/// iteration domain, operands, indexing maps, body, and numeric policy. Schedules and
/// executables never enter it.
pub fn kernel_digest(kernel_json: &str) -> (d: Digest)
    ensures
        d.algorithm@ == "blake3"@,
        d.hex@ == blake3_hex(kernel_payload(kernel_json@)),
        digest_hex_text(d.hex@),
{
    let mut text = String::new();
    text.append("{\"schema\":");
    append_json_string(&mut text, KERNEL_DIGEST_SCHEMA);
    text.append(",\"kernel\":");
    text.append(kernel_json);
    text.append("}");
    Digest::of_payload(text.as_str())
}

/// The JSON array of the blake3 digests of kernel texts, over the first `n`.
pub open spec fn digest_list(kernel_jsons: Seq<Seq<char>>, n: int) -> Seq<char>
    decreases n,
{
    if n <= 0 {
        Seq::empty()
    } else {
        digest_list(kernel_jsons, n - 1) + (if n > 1 {
            ","@
        } else {
            Seq::empty()
        }) + digest_json("blake3"@, blake3_hex(kernel_payload(kernel_jsons[n - 1])))
    }
}

pub open spec fn string_views(v: Seq<String>) -> Seq<Seq<char>> {
    v.map_values(|s: String| s@)
}

/// Append the digests of the kernel texts as a JSON array.
fn append_digest_list(out: &mut String, kernel_jsons: &Vec<String>)
    ensures
        final(out)@ == old(out)@ + "["@ + digest_list(string_views(kernel_jsons@), kernel_jsons@.len() as int) + "]"@,
{
    let ghost start = out@;
    let ghost views = string_views(kernel_jsons@);
    out.append("[");
    let mut i: usize = 0;
    while i < kernel_jsons.len()
        invariant
            i <= kernel_jsons@.len(),
            views == string_views(kernel_jsons@),
            out@ == start + "["@ + digest_list(views, i as int),
        decreases kernel_jsons@.len() - i,
    {
        if i > 0 {
            out.append(",");
        }
        let d = kernel_digest(kernel_jsons[i].as_str());
        d.append_json(out);
        i = i + 1;
        assert(out@ =~= start + "["@ + digest_list(views, i as int));
    }
    out.append("]");
}

/// The payload behind a module digest.
pub open spec fn module_payload(name: Seq<char>, kernel_jsons: Seq<Seq<char>>) -> Seq<char> {
    "{\"schema\":"@ + json_string(MODULE_DIGEST_SCHEMA@) + ",\"name\":"@ + json_string(name) + ",\"kernels\":"@ + "["@
        + digest_list(kernel_jsons, kernel_jsons.len() as int) + "]"@ + "}"@
}

/// Identity of a module: its name plus the ordered digests of its kernels, given the kernels'
/// canonical JSON texts in module order.
pub fn module_digest(name: &str, kernel_jsons: &Vec<String>) -> (d: Digest)
    ensures
        d.algorithm@ == "blake3"@,
        d.hex@ == blake3_hex(module_payload(name@, string_views(kernel_jsons@))),
        digest_hex_text(d.hex@),
{
    let mut text = String::new();
    text.append("{\"schema\":");
    append_json_string(&mut text, MODULE_DIGEST_SCHEMA);
    text.append(",\"name\":");
    append_json_string(&mut text, name);
    text.append(",\"kernels\":");
    append_digest_list(&mut text, kernel_jsons);
    text.append("}");
    Digest::of_payload(text.as_str())
}


// ---------------------------------------------------------------------------------------------
// Compositions and facet pairs
// ---------------------------------------------------------------------------------------------
/// The first `n` items joined by commas.
pub open spec fn json_join(items: Seq<Seq<char>>, n: int) -> Seq<char>
    decreases n,
{
    if n <= 0 {
        Seq::empty()
    } else {
        json_join(items, n - 1) + (if n > 1 {
            ","@
        } else {
            Seq::empty()
        }) + items[n - 1]
    }
}

pub open spec fn member_json(m: StageOperand) -> Seq<char> {
    "{\"stage\":"@ + decimal(m.stage as nat) + ",\"operand\":"@ + decimal(m.operand.0 as nat) + "}"@
}

pub open spec fn group_json(members: Seq<StageOperand>) -> Seq<char> {
    "{\"members\":"@ + "["@ + json_join(members.map_values(|m: StageOperand| member_json(m)), members.len() as int)
        + "]"@ + "}"@
}

/// The payload behind a composition digest.
pub open spec fn composition_payload(name: Seq<char>, stage_jsons: Seq<Seq<char>>, groups: Seq<Seq<StageOperand>>) -> Seq<
    char,
> {
    "{\"schema\":"@ + json_string(KERNEL_COMPOSITION_SCHEMA@) + ",\"name\":"@ + json_string(name) + ",\"stages\":"@
        + "["@ + digest_list(stage_jsons, stage_jsons.len() as int) + "]"@ + ",\"shared_buffers\":"@ + "["@
        + json_join(groups.map_values(|g: Seq<StageOperand>| group_json(g)), groups.len() as int) + "]"@ + "}"@
}

fn append_member(out: &mut String, m: StageOperand)
    ensures
        final(out)@ == old(out)@ + member_json(m),
{
    out.append("{\"stage\":");
    append_decimal(out, m.stage);
    out.append(",\"operand\":");
    append_decimal(out, m.operand.0);
    out.append("}");
}

fn append_group(out: &mut String, members: &Vec<StageOperand>)
    ensures
        final(out)@ == old(out)@ + group_json(members@),
{
    let ghost start = out@;
    let ghost items = members@.map_values(|m: StageOperand| member_json(m));
    out.append("{\"members\":");
    out.append("[");
    let mut i: usize = 0;
    while i < members.len()
        invariant
            i <= members@.len(),
            items == members@.map_values(|m: StageOperand| member_json(m)),
            out@ == start + "{\"members\":"@ + "["@ + json_join(items, i as int),
        decreases members@.len() - i,
    {
        if i > 0 {
            out.append(",");
        }
        append_member(out, members[i]);
        i = i + 1;
        assert(out@ =~= start + "{\"members\":"@ + "["@ + json_join(items, i as int));
    }
    out.append("]");
    out.append("}");
}

/// Identity of a composition, given the canonical JSON text of each stage kernel in stage
/// order: its name, the ordered stage kernel digests, and the sharing table. Stage kernels
/// enter by digest only, so composing never changes what they are.
pub fn composition_digest(composition: &KernelComposition, stage_jsons: &Vec<String>) -> (d: Digest)
    ensures
        d.algorithm@ == "blake3"@,
        d.hex@ == blake3_hex(composition_payload(composition.name@, string_views(stage_jsons@), composition@.groups)),
        digest_hex_text(d.hex@),
{
    let ghost groups = composition@.groups;
    let ghost items = groups.map_values(|g: Seq<StageOperand>| group_json(g));
    let mut text = String::new();
    text.append("{\"schema\":");
    append_json_string(&mut text, KERNEL_COMPOSITION_SCHEMA);
    text.append(",\"name\":");
    append_json_string(&mut text, composition.name.as_str());
    text.append(",\"stages\":");
    append_digest_list(&mut text, stage_jsons);
    text.append(",\"shared_buffers\":");
    text.append("[");
    let ghost start = text@;
    let mut b: usize = 0;
    while b < composition.shared_buffers.len()
        invariant
            b <= composition.shared_buffers@.len(),
            groups == composition@.groups,
            items == groups.map_values(|g: Seq<StageOperand>| group_json(g)),
            text@ == start + json_join(items, b as int),
        decreases composition.shared_buffers@.len() - b,
    {
        if b > 0 {
            text.append(",");
        }
        append_group(&mut text, &composition.shared_buffers[b].members);
        b = b + 1;
        assert(text@ =~= start + json_join(items, b as int));
    }
    text.append("]");
    text.append("}");
    Digest::of_payload(text.as_str())
}

pub open spec fn side_name(side: FacetSide) -> Seq<char> {
    match side {
        FacetSide::Minus => "minus"@,
        FacetSide::Plus => "plus"@,
    }
}

pub open spec fn parity_name(parity: SwapParity) -> Seq<char> {
    match parity {
        SwapParity::Even => "even"@,
        SwapParity::Odd => "odd"@,
    }
}

/// The JSON object of a side role, tagged by its kind.
pub open spec fn role_json(role: FacetOperandRole) -> Seq<char> {
    match role {
        FacetOperandRole::Cell { side, partner } => "{\"kind\":"@ + json_string("cell"@) + ",\"side\":"@ + json_string(
            side_name(side),
        ) + ",\"partner\":"@ + match partner {
            Some(p) => decimal(p.0 as nat),
            None => "null"@,
        } + "}"@,
        FacetOperandRole::Facet { parity } => "{\"kind\":"@ + json_string("facet"@) + ",\"parity\":"@ + json_string(
            parity_name(parity),
        ) + "}"@,
    }
}

/// The payload behind a facet-pair digest.
pub open spec fn facet_pair_payload(kernel_json: Seq<char>, roles: Seq<FacetOperandRole>) -> Seq<char> {
    "{\"schema\":"@ + json_string(FACET_PAIR_KERNEL_SCHEMA@) + ",\"normal_convention\":"@ + json_string(
        FACET_NORMAL_CONVENTION@,
    ) + ",\"kernel\":"@ + digest_json("blake3"@, blake3_hex(kernel_payload(kernel_json))) + ",\"roles\":"@ + "["@
        + json_join(roles.map_values(|r: FacetOperandRole| role_json(r)), roles.len() as int) + "]"@ + "}"@
}

fn append_role(out: &mut String, role: FacetOperandRole)
    ensures
        final(out)@ == old(out)@ + role_json(role),
{
    match role {
        FacetOperandRole::Cell { side, partner } => {
            out.append("{\"kind\":");
            append_json_string(out, "cell");
            out.append(",\"side\":");
            match side {
                FacetSide::Minus => append_json_string(out, "minus"),
                FacetSide::Plus => append_json_string(out, "plus"),
            }
            out.append(",\"partner\":");
            match partner {
                Some(p) => append_decimal(out, p.0),
                None => out.append("null"),
            }
            out.append("}");
        },
        FacetOperandRole::Facet { parity } => {
            out.append("{\"kind\":");
            append_json_string(out, "facet");
            out.append(",\"parity\":");
            match parity {
                SwapParity::Even => append_json_string(out, "even"),
                SwapParity::Odd => append_json_string(out, "odd"),
            }
            out.append("}");
        },
    }
}

/// Identity of a facet-pair kernel, given the canonical JSON text of its inner kernel: the
/// inner kernel by digest, the roles, and the normal convention. The inner kernel's own digest
/// is untouched by the wrapping.
pub fn facet_pair_digest(kernel: &FacetPairKernel, kernel_json: &str) -> (d: Digest)
    ensures
        d.algorithm@ == "blake3"@,
        d.hex@ == blake3_hex(facet_pair_payload(kernel_json@, kernel.roles@)),
        digest_hex_text(d.hex@),
{
    let ghost items = kernel.roles@.map_values(|r: FacetOperandRole| role_json(r));
    let mut text = String::new();
    text.append("{\"schema\":");
    append_json_string(&mut text, FACET_PAIR_KERNEL_SCHEMA);
    text.append(",\"normal_convention\":");
    append_json_string(&mut text, FACET_NORMAL_CONVENTION);
    text.append(",\"kernel\":");
    kernel_digest(kernel_json).append_json(&mut text);
    text.append(",\"roles\":");
    text.append("[");
    let ghost start = text@;
    let mut i: usize = 0;
    while i < kernel.roles.len()
        invariant
            i <= kernel.roles@.len(),
            items == kernel.roles@.map_values(|r: FacetOperandRole| role_json(r)),
            text@ == start + json_join(items, i as int),
        decreases kernel.roles@.len() - i,
    {
        if i > 0 {
            text.append(",");
        }
        append_role(&mut text, kernel.roles[i]);
        i = i + 1;
        assert(text@ =~= start + json_join(items, i as int));
    }
    text.append("]");
    text.append("}");
    Digest::of_payload(text.as_str())
}

/// Two lists of kernel texts whose kernels have the same digests, position by position.
pub open spec fn same_kernel_digests(a: Seq<Seq<char>>, b: Seq<Seq<char>>) -> bool {
    &&& a.len() == b.len()
    &&& forall|i: int| 0 <= i < a.len() ==> blake3_hex(kernel_payload(#[trigger] a[i])) == blake3_hex(kernel_payload(b[i]))
}

proof fn lemma_digest_list_by_kernel_digests(a: Seq<Seq<char>>, b: Seq<Seq<char>>, n: int)
    requires
        same_kernel_digests(a, b),
        n <= a.len(),
    ensures
        digest_list(a, n) == digest_list(b, n),
    decreases n,
{
    if n > 0 {
        lemma_digest_list_by_kernel_digests(a, b, n - 1);
        assert(blake3_hex(kernel_payload(a[n - 1])) == blake3_hex(kernel_payload(b[n - 1])));
    }
}

/// Wrapping never changes what a kernel is: module, composition and facet-pair digests see
/// their kernels only through the kernels' own digests, so kernels with equal digests give
/// equal module and composition digests under the same name and sharing table, and equal
/// facet-pair digests under the same roles.
pub proof fn lemma_wrappers_see_kernels_by_digest(
    a: Seq<Seq<char>>,
    b: Seq<Seq<char>>,
    name: Seq<char>,
    groups: Seq<Seq<StageOperand>>,
    roles: Seq<FacetOperandRole>,
)
    requires
        same_kernel_digests(a, b),
    ensures
        blake3_hex(module_payload(name, a)) == blake3_hex(module_payload(name, b)),
        blake3_hex(composition_payload(name, a, groups)) == blake3_hex(composition_payload(name, b, groups)),
        forall|i: int|
            0 <= i < a.len() ==> blake3_hex(facet_pair_payload(#[trigger] a[i], roles)) == blake3_hex(
                facet_pair_payload(b[i], roles),
            ),
{
    lemma_digest_list_by_kernel_digests(a, b, a.len() as int);
    assert(module_payload(name, a) == module_payload(name, b));
    assert(composition_payload(name, a, groups) == composition_payload(name, b, groups));
    assert forall|i: int| 0 <= i < a.len() implies blake3_hex(facet_pair_payload(#[trigger] a[i], roles)) == blake3_hex(
        facet_pair_payload(b[i], roles),
    ) by {
        assert(blake3_hex(kernel_payload(a[i])) == blake3_hex(kernel_payload(b[i])));
        assert(facet_pair_payload(a[i], roles) == facet_pair_payload(b[i], roles));
    }
}

// ---------------------------------------------------------------------------------------------
// Payloads tell role tables apart
// ---------------------------------------------------------------------------------------------
/// Two texts that disagree at a position both reach: neither is a prefix of the other.
pub open spec fn diverge(x: Seq<char>, y: Seq<char>) -> bool {
    exists|j: int| 0 <= j < x.len() && j < y.len() && x[j] != y[j]
}

proof fn lemma_diverge_extend(p: Seq<char>, x: Seq<char>, y: Seq<char>, s1: Seq<char>, s2: Seq<char>)
    requires
        diverge(x, y),
    ensures
        diverge(p + x + s1, p + y + s2),
{
    let j = choose|j: int| 0 <= j < x.len() && j < y.len() && x[j] != y[j];
    assert((p + x + s1)[p.len() + j] == x[j]);
    assert((p + y + s2)[p.len() + j] == y[j]);
}

proof fn lemma_diverge_differ(x: Seq<char>, y: Seq<char>)
    requires
        diverge(x, y),
    ensures
        x != y,
{
}

pub open spec fn is_digit(c: char) -> bool {
    '0' <= c && c <= '9'
}

proof fn lemma_decimal_digits(n: nat)
    ensures
        decimal(n).len() >= 1,
        n < 10 <==> decimal(n).len() == 1,
        forall|i: int| 0 <= i < decimal(n).len() ==> is_digit(#[trigger] decimal(n)[i]),
    decreases n,
{
    if n >= 10 {
        lemma_decimal_digits(n / 10);
    }
}

proof fn lemma_hex_char_injective(a: u8, b: u8)
    requires
        a < 10,
        b < 10,
        hex_char(a) == hex_char(b),
    ensures
        a == b,
{
}

proof fn lemma_decimal_injective(p: nat, q: nat)
    requires
        decimal(p) == decimal(q),
    ensures
        p == q,
    decreases p,
{
    lemma_decimal_digits(p);
    lemma_decimal_digits(q);
    if p < 10 {
        assert(q < 10);
        assert(decimal(p)[0] == hex_char(p as u8));
        assert(decimal(q)[0] == hex_char(q as u8));
        assert(decimal(p)[0] == decimal(q)[0]);
        lemma_hex_char_injective(p as u8, q as u8);
    } else {
        let dp = decimal(p);
        let dq = decimal(q);
        assert(dp.last() == dq.last());
        lemma_hex_char_injective((p % 10) as u8, (q % 10) as u8);
        assert(dp.drop_last() =~= decimal(p / 10));
        assert(dq.drop_last() =~= decimal(q / 10));
        lemma_decimal_injective(p / 10, q / 10);
    }
}

/// Distinct numbers, each closed by a brace, are told apart.
proof fn lemma_decimal_diverge(p: nat, q: nat)
    requires
        p != q,
    ensures
        diverge(decimal(p) + "}"@, decimal(q) + "}"@),
{
    reveal_strlit("}");
    lemma_decimal_digits(p);
    lemma_decimal_digits(q);
    let x = decimal(p);
    let y = decimal(q);
    let xs = x + "}"@;
    let ys = y + "}"@;
    if exists|j: int| 0 <= j < x.len() && j < y.len() && x[j] != y[j] {
        let j = choose|j: int| 0 <= j < x.len() && j < y.len() && x[j] != y[j];
        assert(xs[j] != ys[j]);
    } else if x.len() < y.len() {
        assert(xs[x.len() as int] == '}');
        assert(is_digit(ys[x.len() as int]));
    } else if y.len() < x.len() {
        assert(ys[y.len() as int] == '}');
        assert(is_digit(xs[y.len() as int]));
    } else {
        assert(x =~= y);
        lemma_decimal_injective(p, q);
    }
}

/// A character that JSON writes as itself.
pub open spec fn plain_char(c: char) -> bool {
    'a' <= c && c <= 'z'
}

proof fn lemma_json_body_first(s: Seq<char>, n: int)
    requires
        1 <= n <= s.len(),
        plain_char(s[0]),
    ensures
        json_body(s, n).len() >= 1,
        json_body(s, n)[0] == s[0],
    decreases n,
{
    if n > 1 {
        lemma_json_body_first(s, n - 1);
        assert(json_body(s, n) == json_body(s, n - 1) + json_escape(s[n - 1]));
        assert(json_body(s, n)[0] == json_body(s, n - 1)[0]);
    } else {
        let c = s[0];
        assert(c as u32 >= 97);
        assert(json_escape(c) == seq![c]);
        assert(json_body(s, 1) =~= json_body(s, 0) + json_escape(c));
    }
}

/// JSON strings of two words that start with different letters are told apart.
proof fn lemma_json_strings_diverge(x: Seq<char>, y: Seq<char>)
    requires
        x.len() >= 1,
        y.len() >= 1,
        plain_char(x[0]),
        plain_char(y[0]),
        x[0] != y[0],
    ensures
        diverge(json_string(x), json_string(y)),
{
    lemma_json_body_first(x, x.len() as int);
    lemma_json_body_first(y, y.len() as int);
    assert(json_string(x)[1] == x[0]);
    assert(json_string(y)[1] == y[0]);
}

/// The JSON objects of two distinct roles are told apart.
#[verifier::spinoff_prover]
#[verifier::rlimit(40)]
proof fn lemma_role_json_diverge(a: FacetOperandRole, b: FacetOperandRole)
    requires
        a != b,
    ensures
        diverge(role_json(a), role_json(b)),
{
    reveal_strlit("cell");
    reveal_strlit("facet");
    reveal_strlit("minus");
    reveal_strlit("plus");
    reveal_strlit("even");
    reveal_strlit("odd");
    reveal_strlit("null");
    reveal_strlit("}");
    let kind = "{\"kind\":"@;
    match (a, b) {
        (FacetOperandRole::Cell { side: sa, partner: pa }, FacetOperandRole::Cell { side: sb, partner: pb }) => {
            let head = kind + json_string("cell"@) + ",\"side\":"@;
            let tail_a = ",\"partner\":"@ + match pa {
                Some(p) => decimal(p.0 as nat),
                None => "null"@,
            } + "}"@;
            let tail_b = ",\"partner\":"@ + match pb {
                Some(p) => decimal(p.0 as nat),
                None => "null"@,
            } + "}"@;
            assert(role_json(a) =~= head + json_string(side_name(sa)) + tail_a);
            assert(role_json(b) =~= head + json_string(side_name(sb)) + tail_b);
            if sa != sb {
                lemma_json_strings_diverge(side_name(sa), side_name(sb));
                lemma_diverge_extend(head, json_string(side_name(sa)), json_string(side_name(sb)), tail_a, tail_b);
            } else {
                let prefix = head + json_string(side_name(sa)) + ",\"partner\":"@;
                let empty = Seq::<char>::empty();
                match (pa, pb) {
                    (Some(p), Some(q)) => {
                        assert(p.0 != q.0);
                        lemma_decimal_diverge(p.0 as nat, q.0 as nat);
                        lemma_diverge_extend(prefix, decimal(p.0 as nat) + "}"@, decimal(q.0 as nat) + "}"@, empty, empty);
                        assert(role_json(a) =~= prefix + (decimal(p.0 as nat) + "}"@) + empty);
                        assert(role_json(b) =~= prefix + (decimal(q.0 as nat) + "}"@) + empty);
                    },
                    (Some(p), None) => {
                        lemma_decimal_digits(p.0 as nat);
                        assert(decimal(p.0 as nat)[0] != "null"@[0]);
                        lemma_diverge_extend(prefix, decimal(p.0 as nat), "null"@, "}"@, "}"@);
                        assert(role_json(a) =~= prefix + decimal(p.0 as nat) + "}"@);
                        assert(role_json(b) =~= prefix + "null"@ + "}"@);
                    },
                    (None, Some(q)) => {
                        lemma_decimal_digits(q.0 as nat);
                        assert(decimal(q.0 as nat)[0] != "null"@[0]);
                        lemma_diverge_extend(prefix, "null"@, decimal(q.0 as nat), "}"@, "}"@);
                        assert(role_json(a) =~= prefix + "null"@ + "}"@);
                        assert(role_json(b) =~= prefix + decimal(q.0 as nat) + "}"@);
                    },
                    (None, None) => {},
                }
            }
        },
        (FacetOperandRole::Facet { parity: pa }, FacetOperandRole::Facet { parity: pb }) => {
            let head = kind + json_string("facet"@) + ",\"parity\":"@;
            lemma_json_strings_diverge(parity_name(pa), parity_name(pb));
            lemma_diverge_extend(head, json_string(parity_name(pa)), json_string(parity_name(pb)), "}"@, "}"@);
            assert(role_json(a) =~= head + json_string(parity_name(pa)) + "}"@);
            assert(role_json(b) =~= head + json_string(parity_name(pb)) + "}"@);
        },
        (FacetOperandRole::Cell { side, partner }, FacetOperandRole::Facet { parity }) => {
            lemma_json_strings_diverge("cell"@, "facet"@);
            let tail_a = role_json(a).subrange((kind.len() + json_string("cell"@).len()) as int, role_json(a).len() as int);
            let tail_b = role_json(b).subrange((kind.len() + json_string("facet"@).len()) as int, role_json(b).len() as int);
            assert(role_json(a) =~= kind + json_string("cell"@) + tail_a);
            assert(role_json(b) =~= kind + json_string("facet"@) + tail_b);
            lemma_diverge_extend(kind, json_string("cell"@), json_string("facet"@), tail_a, tail_b);
        },
        (FacetOperandRole::Facet { parity }, FacetOperandRole::Cell { side, partner }) => {
            lemma_json_strings_diverge("facet"@, "cell"@);
            let tail_a = role_json(a).subrange((kind.len() + json_string("facet"@).len()) as int, role_json(a).len() as int);
            let tail_b = role_json(b).subrange((kind.len() + json_string("cell"@).len()) as int, role_json(b).len() as int);
            assert(role_json(a) =~= kind + json_string("facet"@) + tail_a);
            assert(role_json(b) =~= kind + json_string("cell"@) + tail_b);
            lemma_diverge_extend(kind, json_string("facet"@), json_string("cell"@), tail_a, tail_b);
        },
    }
}

proof fn lemma_json_join_same(a: Seq<Seq<char>>, b: Seq<Seq<char>>, n: int)
    requires
        0 <= n <= a.len(),
        n <= b.len(),
        forall|j: int| 0 <= j < n ==> a[j] == b[j],
    ensures
        json_join(a, n) == json_join(b, n),
    decreases n,
{
    if n > 0 {
        lemma_json_join_same(a, b, n - 1);
    }
}

/// Lists whose items agree before `i` and are told apart at `i` are told apart.
proof fn lemma_json_join_diverge(a: Seq<Seq<char>>, b: Seq<Seq<char>>, i: int, n: int)
    requires
        0 <= i < n <= a.len(),
        a.len() == b.len(),
        forall|j: int| 0 <= j < i ==> a[j] == b[j],
        diverge(a[i], b[i]),
    ensures
        diverge(json_join(a, n), json_join(b, n)),
    decreases n,
{
    let empty = Seq::<char>::empty();
    let sep: Seq<char> = if n > 1 { ","@ } else { empty };
    if n == i + 1 {
        lemma_json_join_same(a, b, i);
        let prefix = json_join(a, i) + sep;
        lemma_diverge_extend(prefix, a[i], b[i], empty, empty);
        assert(json_join(a, n) =~= prefix + a[i] + empty);
        assert(json_join(b, n) =~= prefix + b[i] + empty);
    } else {
        lemma_json_join_diverge(a, b, i, n - 1);
        lemma_diverge_extend(empty, json_join(a, n - 1), json_join(b, n - 1), sep + a[n - 1], sep + b[n - 1]);
        assert(json_join(a, n) =~= empty + json_join(a, n - 1) + (sep + a[n - 1]));
        assert(json_join(b, n) =~= empty + json_join(b, n - 1) + (sep + b[n - 1]));
    }
}

proof fn lemma_first_difference(r1: Seq<FacetOperandRole>, r2: Seq<FacetOperandRole>, n: int) -> (i: int)
    requires
        0 <= n <= r1.len(),
        n <= r2.len(),
        exists|j: int| 0 <= j < n && r1[j] != r2[j],
    ensures
        0 <= i < n,
        r1[i] != r2[i],
        forall|j: int| 0 <= j < i ==> r1[j] == r2[j],
    decreases n,
{
    if exists|j: int| 0 <= j < n - 1 && r1[j] != r2[j] {
        lemma_first_difference(r1, r2, n - 1)
    } else {
        n - 1
    }
}

/// The facet-pair payload is injective in the role table: two role tables of one length
/// that differ anywhere (a role's kind, side, partner or parity) give different payloads for
/// the same kernel, so the digest tells apart, say, an odd unit normal from an even one.
pub proof fn lemma_facet_pair_payload_tells_roles_apart(
    kernel_json: Seq<char>,
    r1: Seq<FacetOperandRole>,
    r2: Seq<FacetOperandRole>,
)
    requires
        r1.len() == r2.len(),
        r1 != r2,
    ensures
        facet_pair_payload(kernel_json, r1) != facet_pair_payload(kernel_json, r2),
{
    if !(exists|j: int| 0 <= j < r1.len() && r1[j] != r2[j]) {
        assert(r1 =~= r2);
    }
    let i = lemma_first_difference(r1, r2, r1.len() as int);
    let a = r1.map_values(|r: FacetOperandRole| role_json(r));
    let b = r2.map_values(|r: FacetOperandRole| role_json(r));
    lemma_role_json_diverge(r1[i], r2[i]);
    assert forall|j: int| 0 <= j < i implies a[j] == b[j] by {
        assert(r1[j] == r2[j]);
    }
    lemma_json_join_diverge(a, b, i, r1.len() as int);
    let head = "{\"schema\":"@ + json_string(FACET_PAIR_KERNEL_SCHEMA@) + ",\"normal_convention\":"@ + json_string(
        FACET_NORMAL_CONVENTION@,
    ) + ",\"kernel\":"@ + digest_json("blake3"@, blake3_hex(kernel_payload(kernel_json))) + ",\"roles\":"@ + "["@;
    let tail = "]"@ + "}"@;
    lemma_diverge_extend(head, json_join(a, r1.len() as int), json_join(b, r2.len() as int), tail, tail);
    assert(facet_pair_payload(kernel_json, r1) =~= head + json_join(a, r1.len() as int) + tail);
    assert(facet_pair_payload(kernel_json, r2) =~= head + json_join(b, r2.len() as int) + tail);
}

} // verus!
