//! Symbol resolution and image serialization.
//!
//! The first pass ([`symbol_table`]) walks the parsed items in order and
//! records each labeled instruction's byte offset; the second pass
//! ([`assemble`]) emits the 64-byte header followed by every instruction's
//! encoding, with `call` and `jne` targets looked up in the table.

use vstd::prelude::*;

use crate::encoding::le_bytes;
use crate::error::BitBoxError;
use crate::instructions::encode_instr;
use crate::instructions::instr_size;
use crate::instructions::resolve_instr;
use crate::instructions::wf_instr;
use crate::instructions::LabelModel;
use crate::lexer::Span;
use crate::lexer::TokenModel;
use crate::parser::Item;
use crate::parser::Text;
use crate::parser::TextModel;

verus! {

/// The symbol table: label names mapped to byte offsets in the image.
/// When a name is bound twice, the later binding wins.
#[derive(Debug)]
pub struct SymbolTable {
    entries: Vec<(String, u32)>,
}

/// The map an entry list denotes: entries are added left to right, so a
/// later entry overrides an earlier one of the same name.
pub open spec fn table_map(s: Seq<(String, u32)>) -> Map<Seq<char>, u32>
    decreases s.len(),
{
    if s.len() == 0 {
        Map::empty()
    } else {
        table_map(s.drop_last()).insert(s.last().0@, s.last().1)
    }
}

impl View for SymbolTable {
    type V = Map<Seq<char>, u32>;

    closed spec fn view(&self) -> Map<Seq<char>, u32> {
        table_map(self.entries@)
    }
}

/// Entries at index `k` and beyond do not bind `x`, so the table's verdict
/// on `x` is the verdict of the first `k` entries.
proof fn lemma_table_map_prefix(s: Seq<(String, u32)>, k: int, x: Seq<char>)
    requires
        0 <= k <= s.len(),
        forall|j: int| k <= j < s.len() ==> s[j].0@ != x,
    ensures
        table_map(s).contains_key(x) == table_map(s.take(k)).contains_key(x),
        table_map(s).contains_key(x) ==> table_map(s)[x] == table_map(s.take(k))[x],
    decreases s.len() - k,
{
    if k == s.len() {
        assert(s.take(k) =~= s);
    } else {
        assert(s.drop_last().take(k) =~= s.take(k));
        lemma_table_map_prefix(s.drop_last(), k, x);
    }
}

impl SymbolTable {
    /// An empty table.
    pub fn new() -> (r: SymbolTable)
        ensures
            r@ == Map::<Seq<char>, u32>::empty(),
    {
        SymbolTable { entries: Vec::new() }
    }

    /// Binds `name` to `offset`, overriding any earlier binding.
    pub fn insert(&mut self, name: String, offset: u32)
        ensures
            final(self)@ == old(self)@.insert(name@, offset),
    {
        let ghost before = self.entries@;
        let ghost n = name@;
        self.entries.push((name, offset));
        proof {
            assert(self.entries@.drop_last() =~= before);
            assert(self.entries@.last().0@ == n);
        }
    }

    /// The offset bound to `name`, if any.
    pub fn lookup(&self, name: &String) -> (r: Option<u32>)
        ensures
            self@.contains_key(name@) ==> r == Some(self@[name@]),
            !self@.contains_key(name@) ==> r is None,
    {
        let n = self.entries.len();
        let mut k: usize = n;
        while k > 0
            invariant
                k <= n,
                n == self.entries@.len(),
                forall|j: int| k <= j < n ==> self.entries@[j].0@ != name@,
            decreases k,
        {
            k = k - 1;
            if self.entries[k].0 == *name {
                proof {
                    lemma_table_map_prefix(self.entries@, k + 1, name@);
                    assert(table_map(self.entries@.take(k + 1)).contains_key(name@));
                    assert(self.entries@.take(k + 1).drop_last() =~= self.entries@.take(k as int));
                    assert(table_map(self.entries@.take(k + 1))[name@] == self.entries@[k as int].1);
                }
                return Some(self.entries[k].1);
            }
        }
        proof {
            lemma_table_map_prefix(self.entries@, 0, name@);
            assert(self.entries@.take(0) =~= Seq::<(String, u32)>::empty());
        }
        None
    }
}

/// The size of the image header in bytes.
pub const HEADER_SIZE: usize = 64;

/// The four magic bytes `B`, `B`, `V`, `M` that every image starts with.
pub open spec fn spec_magic() -> Seq<u8> {
    seq![0x42u8, 0x42u8, 0x56u8, 0x4du8]
}

/// The summed encoded size of the first `k` text items.
pub open spec fn texts_size(ts: Seq<TextModel>, k: int) -> int
    decreases k,
{
    if k <= 0 {
        0
    } else {
        texts_size(ts, k - 1) + instr_size(ts[k - 1].instr)
    }
}

/// The encoded size of the whole text section.
pub open spec fn total_size(ts: Seq<TextModel>) -> int {
    texts_size(ts, ts.len() as int)
}

/// Sizes never shrink as items are added.
pub proof fn lemma_texts_size_mono(ts: Seq<TextModel>, a: int, b: int)
    requires
        a <= b,
    ensures
        texts_size(ts, a) <= texts_size(ts, b),
    decreases b - a,
{
    if a < b {
        lemma_texts_size_mono(ts, a, b - 1);
    }
}

/// The symbol table of the first `k` items: each label bound to the byte
/// offset of the instruction it prefixes, `base` bytes past the header.
/// A name bound twice keeps the later binding.
pub open spec fn spec_symtab(ts: Seq<TextModel>, k: int, base: int) -> Map<Seq<char>, u32>
    decreases k,
{
    if k <= 0 {
        Map::empty()
    } else {
        let m = spec_symtab(ts, k - 1, base);
        match ts[k - 1].label {
            Some(l) => m.insert(l.name, (base + 64 + texts_size(ts, k - 1)) as u32),
            None => m,
        }
    }
}

/// Builds the symbol table: the first pass of assembly.  Fails only when
/// the image would outgrow the 32-bit header fields.
pub fn symbol_table(texts: &Vec<Text>, data_offset: u32) -> (r: Result<SymbolTable, BitBoxError>)
    requires
        crate::parser::texts_wf(crate::parser::text_views(texts@)),
    ensures
        ({
            let ts = crate::parser::text_views(texts@);
            &&& (r matches Ok(st) ==> data_offset + 64 + total_size(ts) <= u32::MAX && st@
                == spec_symtab(ts, ts.len() as int, data_offset as int))
            &&& (r matches Err(e) ==> e is ProgramTooLarge && data_offset + 64 + total_size(ts)
                > u32::MAX)
        }),
{
    let ghost ts = crate::parser::text_views(texts@);
    let mut table = SymbolTable::new();
    let mut ip: u64 = data_offset as u64 + 64;
    if ip > u32::MAX as u64 {
        proof {
            lemma_texts_size_mono(ts, 0, ts.len() as int);
        }
        return Err(BitBoxError::ProgramTooLarge);
    }
    let mut k: usize = 0;
    while k < texts.len()
        invariant
            crate::parser::texts_wf(ts),
            ts == crate::parser::text_views(texts@),
            k <= texts@.len(),
            ts.len() == texts@.len(),
            ip == data_offset + 64 + texts_size(ts, k as int),
            ip <= u32::MAX,
            table@ == spec_symtab(ts, k as int, data_offset as int),
        decreases texts@.len() - k,
    {
        let item = &texts[k];
        assert(ts[k as int] == item@);
        match &item.label {
            Some(l) => {
                table.insert(l.name.clone(), ip as u32);
            },
            None => {},
        }
        assert(wf_instr(ts[k as int].instr));
        let size = item.opcode.size();
        ip = ip + size as u64;
        k = k + 1;
        if ip > u32::MAX as u64 {
            proof {
                lemma_texts_size_mono(ts, k as int, ts.len() as int);
            }
            return Err(BitBoxError::ProgramTooLarge);
        }
    }
    Ok(table)
}

/// The 64-byte image header: magic, text-section length, entry offset,
/// and reserved zero bytes.
#[derive(Debug)]
pub struct Header {
    bytes: Vec<u8>,
}

impl View for Header {
    type V = Seq<u8>;

    closed spec fn view(&self) -> Seq<u8> {
        self.bytes@
    }
}

/// A fresh header: the magic followed by sixty zero bytes.
pub open spec fn spec_header_default() -> Seq<u8> {
    spec_magic() + Seq::new(60, |i: int| 0u8)
}

/// A header with its text-section length and entry offset filled in.
pub open spec fn spec_header(text_len: int, entry: u32) -> Seq<u8> {
    spec_magic() + le_bytes(text_len as nat, 4) + le_bytes(entry as nat, 4) + Seq::new(
        52,
        |i: int| 0u8,
    )
}

impl Header {
    /// Writes the text-section byte length at offset 4.
    pub fn set_header_text_section(&mut self, offset: u32)
        requires
            old(self)@.len() == 64,
        ensures
            final(self)@.len() == 64,
            final(self)@ == old(self)@.subrange(0, 4) + le_bytes(offset as nat, 4) + old(
                self,
            )@.subrange(8, 64),
    {
        let bytes = crate::encoding::le_bytes_of(offset as u64, 4);
        self.bytes[4] = bytes[0];
        self.bytes[5] = bytes[1];
        self.bytes[6] = bytes[2];
        self.bytes[7] = bytes[3];
        proof {
            crate::encoding::lemma_le_bytes_len(offset as nat, 4);
            assert(final(self)@ =~= old(self)@.subrange(0, 4) + le_bytes(offset as nat, 4) + old(
                self,
            )@.subrange(8, 64));
        }
    }

    /// Writes the entry byte offset at offset 8.
    pub fn set_header_entry_point(&mut self, offset: u32)
        requires
            old(self)@.len() == 64,
        ensures
            final(self)@.len() == 64,
            final(self)@ == old(self)@.subrange(0, 8) + le_bytes(offset as nat, 4) + old(
                self,
            )@.subrange(12, 64),
    {
        let bytes = crate::encoding::le_bytes_of(offset as u64, 4);
        self.bytes[8] = bytes[0];
        self.bytes[9] = bytes[1];
        self.bytes[10] = bytes[2];
        self.bytes[11] = bytes[3];
        proof {
            crate::encoding::lemma_le_bytes_len(offset as nat, 4);
            assert(final(self)@ =~= old(self)@.subrange(0, 8) + le_bytes(offset as nat, 4) + old(
                self,
            )@.subrange(12, 64));
        }
    }

    /// Hands the finished header bytes out.
    pub fn build(self) -> (r: Vec<u8>)
        ensures
            r@ == self@,
    {
        self.bytes
    }
}

impl Default for Header {
    /// A fresh header: magic bytes, everything else zero.
    fn default() -> (r: Self)
        ensures
            r@ == spec_header_default(),
            r@.len() == 64,
    {
        let mut bytes: Vec<u8> = Vec::new();
        bytes.push(0x42);
        bytes.push(0x42);
        bytes.push(0x56);
        bytes.push(0x4d);
        let mut k: usize = 0;
        while k < 60
            invariant
                bytes@.len() == 4 + k,
                k <= 60,
                bytes@ =~= spec_magic() + Seq::new(k as nat, |i: int| 0u8),
            decreases 60 - k,
        {
            bytes.push(0);
            k = k + 1;
            assert(bytes@ =~= spec_magic() + Seq::new(k as nat, |i: int| 0u8));
        }
        Header { bytes }
    }
}

/// The encodings of the first `k` text items, concatenated in source
/// order with their targets resolved.
pub open spec fn encode_texts(ts: Seq<TextModel>, st: Map<Seq<char>, u32>, k: int) -> Seq<u8>
    decreases k,
{
    if k <= 0 {
        Seq::empty()
    } else {
        encode_texts(ts, st, k - 1) + encode_instr(resolve_instr(ts[k - 1].instr, st)->Ok_0)
    }
}

/// The first text item, in source order, whose target the symbol table
/// does not resolve.
pub open spec fn first_unresolved(ts: Seq<TextModel>, st: Map<Seq<char>, u32>, i: int) -> Option<
    LabelModel,
> 
    decreases ts.len() - i,
{
    if i < 0 || i >= ts.len() {
        None
    } else {
        match resolve_instr(ts[i].instr, st) {
            Err(l) => Some(l),
            Ok(_) => first_unresolved(ts, st, i + 1),
        }
    }
}

/// What assembling a parsed program yields: the image, or why it fails.
pub enum AsmOutcome {
    /// The finished image: header, then every instruction's encoding.
    AImage(Seq<u8>),
    /// The text section outgrew the 32-bit header fields.
    ATooLarge,
    /// A label, named with its span, that no definition resolves; the
    /// entry symbol is looked up first, then the operands in source order.
    AUnknown(Seq<char>, Span),
}

/// The name the entry token carries.
pub open spec fn entry_name(etok: TokenModel) -> Seq<char> {
    match etok.kind {
        crate::lexer::TokenKindModel::Identifier(n) => n,
        _ => Seq::empty(),
    }
}

/// The specification of assembly over a parsed program: the second pass.
/// The image is the 64-byte header — magic, text length, the entry
/// label's offset — followed by each instruction's encoding at its
/// computed offset.
pub open spec fn spec_assemble_items(etok: TokenModel, ts: Seq<TextModel>) -> AsmOutcome {
    if 64 + total_size(ts) > u32::MAX {
        AsmOutcome::ATooLarge
    } else {
        let st = spec_symtab(ts, ts.len() as int, 0);
        let ename = entry_name(etok);
        if !st.contains_key(ename) {
            AsmOutcome::AUnknown(ename, etok.span)
        } else {
            match first_unresolved(ts, st, 0) {
                Some(l) => AsmOutcome::AUnknown(l.name, l.span),
                None => AsmOutcome::AImage(
                    spec_header(total_size(ts), st[ename]) + encode_texts(ts, st, ts.len() as int),
                ),
            }
        }
    }
}

/// Assembles source text into a binary image: lexing, parsing, symbol
/// resolution and serialization.  The whole pipeline is pinned: the image
/// is exactly [`spec_assemble_items`] over the parse, and each failure
/// surfaces the stage's own error.
#[verifier::rlimit(100)]
pub fn assemble(src: &str) -> (r: Result<Vec<u8>, BitBoxError>)
    ensures
        (match crate::lexer::spec_lex(src@) {
            Ok(toks) => match crate::parser::spec_parse_items(toks) {
                Ok(pr) => match spec_assemble_items(pr.0, pr.1) {
                    AsmOutcome::AImage(img) => r matches Ok(v) && v@ == img,
                    AsmOutcome::ATooLarge => r matches Err(e) && e is ProgramTooLarge,
                    AsmOutcome::AUnknown(n, sp) => r matches Err(e) && (e matches
                    BitBoxError::UnknownLabel(s, sp2) && s@ == n && sp2 == sp),
                },
                Err(ems) => r matches Err(e) && (e matches BitBoxError::Parser(es) && crate::parser::pe_views(
                    es@,
                ) == ems),
            },
            Err(le) => r matches Err(e) && e == le,
        }),
{
    let mut items = match crate::parser::parse(src) {
        Ok(items) => items,
        Err(e) => {
            return Err(e);
        },
    };
    proof {
        crate::parser::lemma_parse_items_wf(crate::lexer::spec_lex(src@)->Ok_0);
    }
    let texts_item = items.pop();
    let entry_item = items.pop();
    let (etok, texts) = match (entry_item, texts_item) {
        (Some(Item::EntryPoint(t)), Some(Item::Text(ts))) => (t, ts),
        _ => {
            // a successful parse always yields exactly these two items
            proof {
                assert(false);
            }
            return Err(BitBoxError::ProgramTooLarge);
        },
    };
    let ghost ts = crate::parser::text_views(texts@);
    let table = match symbol_table(&texts, 0) {
        Ok(t) => t,
        Err(e) => {
            return Err(e);
        },
    };
    let ename = match &etok.kind {
        crate::lexer::TokenKind::Identifier(n) => n,
        _ => {
            // the entry token a successful parse records is an identifier
            proof {
                assert(false);
            }
            return Err(BitBoxError::ProgramTooLarge);
        },
    };
    let entry_offset = match table.lookup(ename) {
        Some(off) => off,
        None => {
            return Err(BitBoxError::UnknownLabel(ename.clone(), etok.span));
        },
    };
    let mut total: u64 = 0;
    let mut k: usize = 0;
    while k < texts.len()
        invariant
            crate::parser::texts_wf(ts),
            ts == crate::parser::text_views(texts@),
            k <= texts@.len(),
            ts.len() == texts@.len(),
            total == texts_size(ts, k as int),
            64 + total_size(ts) <= u32::MAX,
        decreases texts@.len() - k,
    {
        proof {
            lemma_texts_size_mono(ts, k as int + 1, ts.len() as int);
        }
        assert(wf_instr(ts[k as int].instr));
        let size = texts[k].opcode.size();
        total = total + size as u64;
        k = k + 1;
    }
    let mut header = Header::default();
    header.set_header_text_section(total as u32);
    header.set_header_entry_point(entry_offset);
    let mut bin = header.build();
    proof {
        assert(bin@ =~= spec_header(total_size(ts), entry_offset));
    }
    let ghost toks0 = crate::lexer::spec_lex(src@)->Ok_0;
    let ghost pr0 = crate::parser::spec_parse_items(toks0)->Ok_0;
    let mut k2: usize = 0;
    while k2 < texts.len()
        invariant
            crate::parser::texts_wf(ts),
            ts == crate::parser::text_views(texts@),
            k2 <= texts@.len(),
            ts.len() == texts@.len(),
            crate::lexer::spec_lex(src@) == Ok::<Seq<TokenModel>, BitBoxError>(toks0),
            crate::parser::spec_parse_items(toks0) == Ok::<
                (TokenModel, Seq<TextModel>),
                Seq<crate::parser::ParserErrorModel>,
            >(pr0),
            ts == pr0.1,
            etok@ == pr0.0,
            ename@ == entry_name(pr0.0),
            64 + total_size(ts) <= u32::MAX,
            table@ == spec_symtab(ts, ts.len() as int, 0),
            table@.contains_key(ename@),
            entry_offset == table@[ename@],
            first_unresolved(ts, table@, 0) == first_unresolved(ts, table@, k2 as int),
            bin@ == spec_header(total_size(ts), entry_offset) + encode_texts(
                ts,
                table@,
                k2 as int,
            ),
        decreases texts@.len() - k2,
    {
        assert(wf_instr(ts[k2 as int].instr));
        let mut encoded = match texts[k2].opcode.to_bytes(&table) {
            Ok(v) => v,
            Err(e) => {
                proof {
                    let l = resolve_instr(ts[k2 as int].instr, table@)->Err_0;
                    assert(first_unresolved(ts, table@, k2 as int) == Some(l));
                    assert(spec_assemble_items(pr0.0, ts) == AsmOutcome::AUnknown(l.name, l.span));
                }
                return Err(e);
            },
        };
        bin.append(&mut encoded);
        k2 = k2 + 1;
        proof {
            assert(first_unresolved(ts, table@, k2 - 1) == first_unresolved(ts, table@, k2 as int));
            assert(bin@ =~= spec_header(total_size(ts), entry_offset) + encode_texts(
                ts,
                table@,
                k2 as int,
            ));
        }
    }
    proof {
        assert(first_unresolved(ts, table@, ts.len() as int) is None);
    }
    Ok(bin)
}

/// Resolution keeps an instruction's opcode, size and well-formedness,
/// and leaves its targets resolved.
pub proof fn lemma_resolve_keeps(i: crate::instructions::InstrModel, st: Map<Seq<char>, u32>)
    ensures
        resolve_instr(i, st) matches Ok(i2) ==> ({
            &&& i2.opcode == i.opcode
            &&& i2.ty == i.ty
            &&& instr_size(i2) == instr_size(i)
            &&& (wf_instr(i) ==> wf_instr(i2))
            &&& crate::instructions::data_resolved(i2.data)
        }),
{
}

/// When no item is unresolved, every item from `i` on resolves.
pub proof fn lemma_all_resolved(ts: Seq<TextModel>, st: Map<Seq<char>, u32>, i: int)
    requires
        0 <= i,
        first_unresolved(ts, st, i) is None,
    ensures
        forall|j: int| i <= j < ts.len() ==> (#[trigger] resolve_instr(ts[j].instr, st)) is Ok,
    decreases ts.len() - i,
{
    if i < ts.len() {
        lemma_all_resolved(ts, st, i + 1);
        assert forall|j: int| i <= j < ts.len() implies (#[trigger] resolve_instr(
            ts[j].instr,
            st,
        )) is Ok by {
            if j == i {
                assert(resolve_instr(ts[i].instr, st) is Ok);
            }
        }
    }
}

/// A well-formed resolved instruction encodes to exactly its size.
pub proof fn lemma_encode_instr_len(i: crate::instructions::InstrModel)
    requires
        crate::instructions::data_resolved(i.data),
    ensures
        encode_instr(i).len() == instr_size(i),
{
    crate::instructions::lemma_encode_data_len(i.data);
}

/// The encoded text section of `k` items is exactly their summed size.
pub proof fn lemma_encode_texts_len(ts: Seq<TextModel>, st: Map<Seq<char>, u32>, k: int)
    requires
        k <= ts.len(),
        forall|j: int| 0 <= j < ts.len() ==> (#[trigger] resolve_instr(ts[j].instr, st)) is Ok,
    ensures
        encode_texts(ts, st, k).len() == texts_size(ts, k),
    decreases k,
{
    if k > 0 {
        lemma_encode_texts_len(ts, st, k - 1);
        lemma_resolve_keeps(ts[k - 1].instr, st);
        lemma_encode_instr_len(resolve_instr(ts[k - 1].instr, st)->Ok_0);
    }
}

/// Item `j` of the text section sits at byte offsets `texts_size(ts, j)`
/// up to `texts_size(ts, j + 1)` of the encoded section.
pub proof fn lemma_encode_texts_at(ts: Seq<TextModel>, st: Map<Seq<char>, u32>, k: int, j: int)
    requires
        0 <= j < k <= ts.len(),
        forall|jj: int| 0 <= jj < ts.len() ==> (#[trigger] resolve_instr(ts[jj].instr, st)) is Ok,
    ensures
        encode_texts(ts, st, k).subrange(texts_size(ts, j), texts_size(ts, j + 1)) == encode_instr(
            resolve_instr(ts[j].instr, st)->Ok_0,
        ),
    decreases k,
{
    lemma_encode_texts_len(ts, st, k);
    lemma_encode_texts_len(ts, st, k - 1);
    lemma_resolve_keeps(ts[k - 1].instr, st);
    lemma_encode_instr_len(resolve_instr(ts[k - 1].instr, st)->Ok_0);
    lemma_texts_size_mono(ts, 0, j);
    lemma_texts_size_mono(ts, j + 1, k);
    if j == k - 1 {
        assert(encode_texts(ts, st, k).subrange(texts_size(ts, j), texts_size(ts, j + 1))
            =~= encode_instr(resolve_instr(ts[j].instr, st)->Ok_0));
    } else {
        lemma_encode_texts_at(ts, st, k - 1, j);
        lemma_texts_size_mono(ts, j + 1, k - 1);
        assert(encode_texts(ts, st, k).subrange(texts_size(ts, j), texts_size(ts, j + 1))
            =~= encode_texts(ts, st, k - 1).subrange(texts_size(ts, j), texts_size(ts, j + 1)));
    }
}

/// Every offset the symbol table records lies at or past the header.
pub proof fn lemma_symtab_bounds(ts: Seq<TextModel>, k: int, base: int)
    requires
        0 <= base,
        k <= ts.len(),
        base + 64 + total_size(ts) <= u32::MAX,
    ensures
        forall|n: Seq<char>| spec_symtab(ts, k, base).contains_key(n) ==> 64 + base <= (
        #[trigger] spec_symtab(ts, k, base)[n]) <= base + 64 + total_size(ts),
    decreases k,
{
    if k > 0 {
        lemma_symtab_bounds(ts, k - 1, base);
        lemma_texts_size_mono(ts, 0, k - 1);
        lemma_texts_size_mono(ts, k - 1, ts.len() as int);
        assert forall|n: Seq<char>| spec_symtab(ts, k, base).contains_key(n) implies 64 + base <= (
        #[trigger] spec_symtab(ts, k, base)[n]) <= base + 64 + total_size(ts) by {
            match ts[k - 1].label {
                Some(l) => {
                    if n != l.name {
                        assert(spec_symtab(ts, k - 1, base).contains_key(n));
                    }
                },
                None => {
                    assert(spec_symtab(ts, k - 1, base).contains_key(n));
                },
            }
        }
    }
}

/// Header round trip: an assembled image opens with the magic bytes, its
/// length field holds the text-section size (so the image is 64 bytes
/// plus the text), and the entry field holds the offset the symbol table
/// records for the entry label, at or past the header.
pub proof fn lemma_header_round_trip(etok: TokenModel, ts: Seq<TextModel>)
    ensures
        spec_assemble_items(etok, ts) matches AsmOutcome::AImage(img) ==> ({
            let st = spec_symtab(ts, ts.len() as int, 0);
            &&& img.len() == 64 + total_size(ts)
            &&& img.subrange(0, 4) == spec_magic()
            &&& crate::encoding::le_value(img.subrange(4, 8)) == total_size(ts)
            &&& st.contains_key(entry_name(etok))
            &&& crate::encoding::le_value(img.subrange(8, 12)) == st[entry_name(etok)]
            &&& 64 <= st[entry_name(etok)] <= 64 + total_size(ts)
        }),
{
    if spec_assemble_items(etok, ts) is AImage {
        let st = spec_symtab(ts, ts.len() as int, 0);
        let img = spec_assemble_items(etok, ts)->AImage_0;
        lemma_all_resolved(ts, st, 0);
        lemma_encode_texts_len(ts, st, ts.len() as int);
        lemma_texts_size_mono(ts, 0, ts.len() as int);
        crate::encoding::lemma_le_bytes_len(total_size(ts) as nat, 4);
        crate::encoding::lemma_le_bytes_len(st[entry_name(etok)] as nat, 4);
        assert(img.subrange(0, 4) =~= spec_magic());
        assert(img.subrange(4, 8) =~= le_bytes(total_size(ts) as nat, 4));
        assert(img.subrange(8, 12) =~= le_bytes(st[entry_name(etok)] as nat, 4));
        crate::encoding::lemma_pow256_values();
        crate::encoding::lemma_le_round_trip(total_size(ts) as nat, 4);
        crate::encoding::lemma_le_round_trip(st[entry_name(etok)] as nat, 4);
        lemma_symtab_bounds(ts, ts.len() as int, 0);
    }
}

/// Decode completeness over an assembled image: at each item's computed
/// offset the machine decodes exactly that item's resolved instruction
/// and advances the program counter by exactly the size the symbol pass
/// summed.
pub proof fn lemma_assembled_decode(etok: TokenModel, ts: Seq<TextModel>, k: int)
    requires
        crate::parser::texts_wf(ts),
        0 <= k < ts.len(),
    ensures
        spec_assemble_items(etok, ts) matches AsmOutcome::AImage(img) ==> ({
            let st = spec_symtab(ts, ts.len() as int, 0);
            crate::vm::spec_decode(img, 64 + texts_size(ts, k))
                == crate::vm::DecodeResult::DOk(
                resolve_instr(ts[k].instr, st)->Ok_0,
                64 + texts_size(ts, k) + instr_size(ts[k].instr),
            )
        }),
{
    if spec_assemble_items(etok, ts) is AImage {
        let st = spec_symtab(ts, ts.len() as int, 0);
        let img = spec_assemble_items(etok, ts)->AImage_0;
        lemma_all_resolved(ts, st, 0);
        lemma_encode_texts_len(ts, st, ts.len() as int);
        lemma_encode_texts_at(ts, st, ts.len() as int, k);
        lemma_resolve_keeps(ts[k].instr, st);
        lemma_texts_size_mono(ts, 0, k);
        lemma_texts_size_mono(ts, k + 1, ts.len() as int);
        let ri = resolve_instr(ts[k].instr, st)->Ok_0;
        crate::encoding::lemma_le_bytes_len(total_size(ts) as nat, 4);
        crate::encoding::lemma_le_bytes_len(st[entry_name(etok)] as nat, 4);
        assert(img.subrange(64 + texts_size(ts, k), 64 + texts_size(ts, k) + instr_size(ri))
            =~= encode_texts(ts, st, ts.len() as int).subrange(
            texts_size(ts, k),
            texts_size(ts, k + 1),
        ));
        crate::vm::lemma_decode_encode(img, 64 + texts_size(ts, k), ri);
    }
}

/// Symbol resolution: the four target bytes a `call` or `jne` encodes are
/// exactly the little-endian address the symbol table records for the
/// label it names.
pub proof fn lemma_symbol_resolution(etok: TokenModel, ts: Seq<TextModel>, k: int)
    requires
        crate::parser::texts_wf(ts),
        0 <= k < ts.len(),
    ensures
        spec_assemble_items(etok, ts) matches AsmOutcome::AImage(img) ==> ({
            let st = spec_symtab(ts, ts.len() as int, 0);
            let off = 64 + texts_size(ts, k);
            &&& (ts[k].instr.data matches crate::instructions::DataModel::Label(
                crate::instructions::TargetModel::Sym(l),
            ) ==> st.contains_key(l.name) && img.subrange(off + 2, off + 6) == le_bytes(
                st[l.name] as nat,
                4,
            ))
            &&& (ts[k].instr.data matches crate::instructions::DataModel::Reg2Label(
                _,
                _,
                crate::instructions::TargetModel::Sym(l),
            ) ==> st.contains_key(l.name) && img.subrange(off + 4, off + 8) == le_bytes(
                st[l.name] as nat,
                4,
            ))
        }),
{
    if spec_assemble_items(etok, ts) is AImage {
        let st = spec_symtab(ts, ts.len() as int, 0);
        let img = spec_assemble_items(etok, ts)->AImage_0;
        lemma_all_resolved(ts, st, 0);
        lemma_encode_texts_len(ts, st, ts.len() as int);
        lemma_encode_texts_at(ts, st, ts.len() as int, k);
        lemma_resolve_keeps(ts[k].instr, st);
        lemma_texts_size_mono(ts, 0, k);
        lemma_texts_size_mono(ts, k + 1, ts.len() as int);
        let ri = resolve_instr(ts[k].instr, st)->Ok_0;
        crate::instructions::lemma_encode_data_len(ri.data);
        crate::encoding::lemma_le_bytes_len(total_size(ts) as nat, 4);
        crate::encoding::lemma_le_bytes_len(st[entry_name(etok)] as nat, 4);
        let off = 64 + texts_size(ts, k);
        assert(img.subrange(off, off + instr_size(ri)) =~= encode_texts(
            ts,
            st,
            ts.len() as int,
        ).subrange(texts_size(ts, k), texts_size(ts, k + 1)));
        let enc = encode_instr(ri);
        assert(img.subrange(off, off + instr_size(ri)) == enc);
        match ts[k].instr.data {
            crate::instructions::DataModel::Label(crate::instructions::TargetModel::Sym(l)) => {
                crate::encoding::lemma_le_bytes_len(st[l.name] as nat, 4);
                assert forall|x: int| 0 <= x < 4 implies img.subrange(off + 2, off + 6)[x]
                    == le_bytes(st[l.name] as nat, 4)[x] by {
                    assert(img.subrange(off + 2, off + 6)[x] == img[off + 2 + x]);
                    assert(img.subrange(off, off + instr_size(ri))[2 + x] == img[off + (2 + x)]);
                    assert(enc[2 + x] == crate::instructions::encode_data(ri.data)[x]);
                }
                assert(img.subrange(off + 2, off + 6) =~= le_bytes(st[l.name] as nat, 4));
            },
            crate::instructions::DataModel::Reg2Label(
                _,
                _,
                crate::instructions::TargetModel::Sym(l),
            ) => {
                crate::encoding::lemma_le_bytes_len(st[l.name] as nat, 4);
                assert forall|x: int| 0 <= x < 4 implies img.subrange(off + 4, off + 8)[x]
                    == le_bytes(st[l.name] as nat, 4)[x] by {
                    assert(img.subrange(off + 4, off + 8)[x] == img[off + 4 + x]);
                    assert(img.subrange(off, off + instr_size(ri))[4 + x] == img[off + (4 + x)]);
                    assert(enc[4 + x] == crate::instructions::encode_data(ri.data)[2 + x]);
                    assert(crate::instructions::encode_data(ri.data)[2 + x] == le_bytes(
                        st[l.name] as nat,
                        4,
                    )[x]);
                }
                assert(img.subrange(off + 4, off + 8) =~= le_bytes(st[l.name] as nat, 4));
            },
            _ => {},
        }
    }
}

} // verus!
