use vstd::prelude::*;
use vstd::string::*;

use crate::text::dec_text;
use crate::text::hex_text;
use crate::text::push_decimal;
use crate::text::push_hex;
use crate::text::push_hex_padded;
use crate::text::zero_pad;

verus! {

/// A section whose offsets an attribute may hold.
#[derive(Clone, Copy, Debug, PartialEq, Eq, Structural)]
pub enum OffsetSection {
    DebugInfo,
    DebugInfoSup,
    DebugLine,
    DebugLocLists,
    DebugMacinfo,
    DebugMacro,
    DebugRngLists,
    DebugStrSup,
    DebugStrOffsets,
    DebugAddr,
}

/// A table that an attribute may index.
#[derive(Clone, Copy, Debug, PartialEq, Eq, Structural)]
pub enum IndexTable {
    LocLists,
    RngLists,
    Addr,
}

/// Where a string-valued attribute keeps its text.
#[derive(Clone, Copy, Debug, PartialEq, Eq, Structural)]
pub enum StrSource {
    /// An offset into the string section.
    DebugStr,
    /// An offset into the line-table string section.
    DebugLineStr,
    /// An index into the unit's string-offsets table.
    StrOffsetsIndex,
}

/// A 64-bit signature an attribute may hold.
#[derive(Clone, Copy, Debug, PartialEq, Eq, Structural)]
pub enum SignatureKind {
    TypeSignature,
    DwoId,
}

/// What an intra-unit reference leads to.
#[derive(Clone, Debug)]
pub enum RefTarget {
    /// The referenced entry could not be read.
    Unreadable,
    /// The referenced entry, with its name attribute's text and its tag's name,
    /// where it has them.
    Entry(Option<String>, Option<String>),
}

/// The value of one attribute, by kind. Texts that live elsewhere in the debug
/// sections are carried resolved, where they could be read.
#[derive(Clone, Debug)]
pub enum AttrValue {
    Addr(u64),
    Block(Vec<u8>),
    Data1(u8),
    Data2(u16),
    Data4(u32),
    Data8(u64),
    Sdata(i64),
    Udata(u64),
    Exprloc(Vec<u8>),
    Flag(bool),
    SecOffset(u64),
    UnitRef(u64, RefTarget),
    Offset(OffsetSection, u64),
    Index(IndexTable, u64),
    Str(StrSource, u64, Option<String>),
    Text(String),
    Signature(SignatureKind, u64),
    /// A named constant (an encoding, a language, ...), with its name where known.
    Constant(Option<String>),
    AddressClass(u64),
    /// A file-table index, with the file's path where the line table gives one.
    FileIndex(u64, Option<String>),
    /// Any other kind, in its generic structural rendering.
    Other(String),
}

/// What the demangler for language code `lang` makes of `name`, where it accepts it.
pub uninterp spec fn demangled(lang: u16, name: Seq<char>) -> Option<Seq<char>>;

/// Relies on `addr2line::demangle`: the demangled form of `name` under the
/// scheme of language code `lang`, or `None` where that scheme does not accept it.
#[verifier::external_body]
fn demangle_as(name: &str, lang: u16) -> (r: Option<String>)
    ensures
        match r {
            Some(t) => demangled(lang, name@) == Some(t@),
            None => demangled(lang, name@) is None,
        },
{
    addr2line::demangle(name, gimli::DwLang(lang))
}

/// Language codes whose demanglers are tried, in order: Rust, then C++ and its
/// 2003, 2011 and 2014 revisions.
pub open spec fn demangle_langs() -> Seq<u16> {
    seq![0x1cu16, 0x04u16, 0x19u16, 0x1au16, 0x21u16]
}

/// The first demangling that a language in `langs[k..]` accepts, else `name`.
pub open spec fn demangle_from(name: Seq<char>, langs: Seq<u16>, k: int) -> Seq<char>
    decreases langs.len() - k,
{
    if k < 0 || k >= langs.len() {
        name
    } else {
        match demangled(langs[k], name) {
            Some(t) => t,
            None => demangle_from(name, langs, k + 1),
        }
    }
}

pub open spec fn demangled_name(name: Seq<char>) -> Seq<char> {
    demangle_from(name, demangle_langs(), 0)
}

/// `name` demangled by the first scheme that accepts it, or unchanged.
pub fn demangle_name(name: &str) -> (r: String)
    ensures
        r@ == demangled_name(name@),
{
    let langs: [u16; 5] = [0x1c, 0x04, 0x19, 0x1a, 0x21];
    proof {
        assert(langs@ =~= demangle_langs());
    }
    let mut k: usize = 0;
    while k < 5
        invariant
            k <= 5,
            langs@ == demangle_langs(),
            demangled_name(name@) == demangle_from(name@, demangle_langs(), k as int),
        decreases 5 - k,
    {
        match demangle_as(name, langs[k]) {
            Some(t) => {
                return t;
            },
            None => {},
        }
        k += 1;
    }
    String::from_str(name)
}

pub open spec fn hex_byte_list(b: Seq<u8>) -> Seq<char>
    decreases b.len(),
{
    if b.len() == 0 {
        seq![]
    } else if b.len() == 1 {
        zero_pad(hex_text(b[0] as nat), 2)
    } else {
        hex_byte_list(b.drop_last()) + " "@ + zero_pad(hex_text(b.last() as nat), 2)
    }
}

/// Bytes in brackets: all of them up to 16, else the first 8 and the count.
pub open spec fn byte_dump(b: Seq<u8>) -> Seq<char> {
    if b.len() <= 16 {
        "["@ + hex_byte_list(b) + "]"@
    } else {
        "["@ + hex_byte_list(b.subrange(0, 8)) + " ... ("@ + dec_text(b.len()) + " bytes)]"@
    }
}

pub open spec fn signed_text(v: i64) -> Seq<char> {
    if v < 0 {
        "-"@ + dec_text((-v) as nat)
    } else {
        dec_text(v as nat)
    }
}

pub open spec fn offset_prefix(s: OffsetSection) -> Seq<char> {
    match s {
        OffsetSection::DebugInfo => ".debug_info+0x"@,
        OffsetSection::DebugInfoSup => ".debug_info.sup+0x"@,
        OffsetSection::DebugLine => ".debug_line+0x"@,
        OffsetSection::DebugLocLists => ".debug_loclists+0x"@,
        OffsetSection::DebugMacinfo => ".debug_macinfo+0x"@,
        OffsetSection::DebugMacro => ".debug_macro+0x"@,
        OffsetSection::DebugRngLists => ".debug_rnglists+0x"@,
        OffsetSection::DebugStrSup => ".debug_str.sup+0x"@,
        OffsetSection::DebugStrOffsets => ".debug_str_offsets+0x"@,
        OffsetSection::DebugAddr => ".debug_addr+0x"@,
    }
}

pub open spec fn index_prefix(t: IndexTable) -> Seq<char> {
    match t {
        IndexTable::LocLists => "loclist["@,
        IndexTable::RngLists => "rnglist["@,
        IndexTable::Addr => "addr["@,
    }
}

/// How an unresolved string reference reads.
pub open spec fn str_fallback(s: StrSource, n: u64) -> Seq<char> {
    match s {
        StrSource::DebugStr => ".debug_str+0x"@ + hex_text(n as nat),
        StrSource::DebugLineStr => ".debug_line_str+0x"@ + hex_text(n as nat),
        StrSource::StrOffsetsIndex => "str["@ + dec_text(n as nat) + "]"@,
    }
}

pub open spec fn signature_prefix(k: SignatureKind) -> Seq<char> {
    match k {
        SignatureKind::TypeSignature => "type_sig 0x"@,
        SignatureKind::DwoId => "dwo_id 0x"@,
    }
}

/// How an attribute value reads.
pub open spec fn attr_text(v: AttrValue) -> Seq<char> {
    match v {
        AttrValue::Addr(a) => "0x"@ + zero_pad(hex_text(a as nat), 8),
        AttrValue::Block(b) => byte_dump(b@),
        AttrValue::Data1(x) => dec_text(x as nat),
        AttrValue::Data2(x) => dec_text(x as nat),
        AttrValue::Data4(x) => dec_text(x as nat),
        AttrValue::Data8(x) => dec_text(x as nat),
        AttrValue::Sdata(x) => signed_text(x),
        AttrValue::Udata(x) => dec_text(x as nat),
        AttrValue::Exprloc(b) => if b@.len() == 0 {
            "<empty expr>"@
        } else {
            "expr"@ + byte_dump(b@)
        },
        AttrValue::Flag(f) => if f {
            "true"@
        } else {
            "false"@
        },
        AttrValue::SecOffset(o) => "offset 0x"@ + hex_text(o as nat),
        AttrValue::UnitRef(o, t) => match t {
            RefTarget::Entry(Some(name), _) => demangled_name(name@),
            RefTarget::Entry(None, tag) => "<"@ + match tag {
                Some(t) => t@,
                None => "?"@,
            } + "> @ 0x"@ + hex_text(o as nat),
            RefTarget::Unreadable => "ref 0x"@ + hex_text(o as nat),
        },
        AttrValue::Offset(s, o) => offset_prefix(s) + hex_text(o as nat),
        AttrValue::Index(t, i) => index_prefix(t) + dec_text(i as nat) + "]"@,
        AttrValue::Str(s, n, text) => match text {
            Some(t) => t@,
            None => str_fallback(s, n),
        },
        AttrValue::Text(t) => t@,
        AttrValue::Signature(k, x) => signature_prefix(k) + zero_pad(hex_text(x as nat), 16),
        AttrValue::Constant(c) => match c {
            Some(t) => t@,
            None => "?"@,
        },
        AttrValue::AddressClass(c) => "addr_class("@ + dec_text(c as nat) + ")"@,
        AttrValue::FileIndex(i, path) => match path {
            Some(p) => if i > 0 {
                p@
            } else {
                "file["@ + dec_text(i as nat) + "]"@
            },
            None => "file["@ + dec_text(i as nat) + "]"@,
        },
        AttrValue::Other(t) => t@,
    }
}

fn push_byte_list(s: &mut String, b: &Vec<u8>, n: usize)
    requires
        n <= b@.len(),
    ensures
        final(s)@ == old(s)@ + hex_byte_list(b@.subrange(0, n as int)),
{
    let mut i: usize = 0;
    let ghost start = old(s)@;
    proof {
        assert(b@.subrange(0, 0) =~= Seq::<u8>::empty());
    }
    while i < n
        invariant
            n <= b@.len(),
            i <= n,
            s@ == start + hex_byte_list(b@.subrange(0, i as int)),
        decreases n - i,
    {
        if i > 0 {
            s.append(" ");
        }
        push_hex_padded(s, b[i] as u64, 2);
        proof {
            let pre = b@.subrange(0, i as int);
            let next = b@.subrange(0, i + 1);
            assert(next.drop_last() =~= pre);
            assert(next.last() == b@[i as int]);
            if i == 0 {
                assert(next.len() == 1);
            }
        }
        i += 1;
    }
}

fn push_byte_dump(s: &mut String, b: &Vec<u8>)
    ensures
        final(s)@ == old(s)@ + byte_dump(b@),
{
    s.append("[");
    if b.len() <= 16 {
        push_byte_list(s, b, b.len());
        proof {
            assert(b@.subrange(0, b@.len() as int) =~= b@);
        }
        s.append("]");
    } else {
        push_byte_list(s, b, 8);
        s.append(" ... (");
        push_decimal(s, b.len() as u64);
        s.append(" bytes)]");
    }
    proof {
        assert(s@ =~= old(s)@ + byte_dump(b@));
    }
}

fn push_str_of(s: &mut String, t: &str)
    ensures
        final(s)@ == old(s)@ + t@,
{
    s.append(t);
}

fn offset_prefix_str(k: OffsetSection) -> (r: &'static str)
    ensures
        r@ == offset_prefix(k),
{
    match k {
        OffsetSection::DebugInfo => ".debug_info+0x",
        OffsetSection::DebugInfoSup => ".debug_info.sup+0x",
        OffsetSection::DebugLine => ".debug_line+0x",
        OffsetSection::DebugLocLists => ".debug_loclists+0x",
        OffsetSection::DebugMacinfo => ".debug_macinfo+0x",
        OffsetSection::DebugMacro => ".debug_macro+0x",
        OffsetSection::DebugRngLists => ".debug_rnglists+0x",
        OffsetSection::DebugStrSup => ".debug_str.sup+0x",
        OffsetSection::DebugStrOffsets => ".debug_str_offsets+0x",
        OffsetSection::DebugAddr => ".debug_addr+0x",
    }
}

fn index_prefix_str(t: IndexTable) -> (r: &'static str)
    ensures
        r@ == index_prefix(t),
{
    match t {
        IndexTable::LocLists => "loclist[",
        IndexTable::RngLists => "rnglist[",
        IndexTable::Addr => "addr[",
    }
}

/// The text of an attribute value: numbers in decimal, addresses and offsets in
/// hexadecimal, byte blocks and expressions as byte dumps, flags as "true" or
/// "false", references and string offsets resolved where they could be, and
/// any other kind in its generic rendering.
pub fn format_attr_value(v: &AttrValue) -> (r: String)
    ensures
        r@ == attr_text(*v),
{
    let mut s = String::new();
    match v {
        AttrValue::Addr(a) => {
            s.append("0x");
            push_hex_padded(&mut s, *a, 8);
        },
        AttrValue::Block(b) => {
            push_byte_dump(&mut s, b);
        },
        AttrValue::Data1(x) => {
            push_decimal(&mut s, *x as u64);
        },
        AttrValue::Data2(x) => {
            push_decimal(&mut s, *x as u64);
        },
        AttrValue::Data4(x) => {
            push_decimal(&mut s, *x as u64);
        },
        AttrValue::Data8(x) => {
            push_decimal(&mut s, *x);
        },
        AttrValue::Sdata(x) => {
            if *x < 0 {
                s.append("-");
                let m = (-(*x as i128)) as u64;
                push_decimal(&mut s, m);
            } else {
                push_decimal(&mut s, *x as u64);
            }
        },
        AttrValue::Udata(x) => {
            push_decimal(&mut s, *x);
        },
        AttrValue::Exprloc(b) => {
            if b.len() == 0 {
                s.append("<empty expr>");
            } else {
                s.append("expr");
                push_byte_dump(&mut s, b);
            }
        },
        AttrValue::Flag(f) => {
            if *f {
                s.append("true");
            } else {
                s.append("false");
            }
        },
        AttrValue::SecOffset(o) => {
            s.append("offset 0x");
            push_hex(&mut s, *o);
        },
        AttrValue::UnitRef(o, t) => match t {
            RefTarget::Entry(Some(name), _) => {
                s = demangle_name(name.as_str());
            },
            RefTarget::Entry(None, tag) => {
                s.append("<");
                match tag {
                    Some(t) => push_str_of(&mut s, t.as_str()),
                    None => s.append("?"),
                }
                s.append("> @ 0x");
                push_hex(&mut s, *o);
            },
            RefTarget::Unreadable => {
                s.append("ref 0x");
                push_hex(&mut s, *o);
            },
        },
        AttrValue::Offset(k, o) => {
            s.append(offset_prefix_str(*k));
            push_hex(&mut s, *o);
        },
        AttrValue::Index(t, i) => {
            s.append(index_prefix_str(*t));
            push_decimal(&mut s, *i);
            s.append("]");
        },
        AttrValue::Str(k, n, text) => match text {
            Some(t) => {
                s = t.clone();
            },
            None => match k {
                StrSource::DebugStr => {
                    s.append(".debug_str+0x");
                    push_hex(&mut s, *n);
                },
                StrSource::DebugLineStr => {
                    s.append(".debug_line_str+0x");
                    push_hex(&mut s, *n);
                },
                StrSource::StrOffsetsIndex => {
                    s.append("str[");
                    push_decimal(&mut s, *n);
                    s.append("]");
                },
            },
        },
        AttrValue::Text(t) => {
            s = t.clone();
        },
        AttrValue::Signature(k, x) => {
            match k {
                SignatureKind::TypeSignature => s.append("type_sig 0x"),
                SignatureKind::DwoId => s.append("dwo_id 0x"),
            }
            push_hex_padded(&mut s, *x, 16);
        },
        AttrValue::Constant(c) => match c {
            Some(t) => {
                s = t.clone();
            },
            None => {
                s.append("?");
            },
        },
        AttrValue::AddressClass(c) => {
            s.append("addr_class(");
            push_decimal(&mut s, *c);
            s.append(")");
        },
        AttrValue::FileIndex(i, path) => {
            let mut resolved = false;
            match path {
                Some(p) => {
                    if *i > 0 {
                        s = p.clone();
                        resolved = true;
                    }
                },
                None => {},
            }
            if !resolved {
                s.append("file[");
                push_decimal(&mut s, *i);
                s.append("]");
            }
        },
        AttrValue::Other(t) => {
            s = t.clone();
        },
    }
    proof {
        assert(s@ =~= attr_text(*v));
    }
    s
}

} // verus!
