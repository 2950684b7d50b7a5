//! The dynamic symbol table of an ELF image, read with the `elf` crate.

use vstd::prelude::*;

verus! {

#[verifier::external_type_specification]
#[verifier::external_body]
pub struct ExParseError(elf::ParseError);

/// A symbol of a dynamic symbol table: its name and its `st_value`.
#[derive(Debug)]
pub struct DynSymbol {
    pub name: Vec<u8>,
    pub value: u64,
}

impl DynSymbol {
    pub open spec fn pair(self) -> (Seq<u8>, u64) {
        (self.name@, self.value)
    }
}

pub open spec fn symbol_pairs(syms: Seq<DynSymbol>) -> Seq<(Seq<u8>, u64)> {
    syms.map_values(|s: DynSymbol| s.pair())
}

/// Why the dynamic symbols of an image cannot be had.
#[derive(Clone, Copy, Debug, PartialEq, Eq, Structural)]
pub enum ElfError {
    /// The image is no well-formed ELF object, or its tables are damaged.
    Malformed,
    /// The image has no dynamic symbol table.
    NoDynamicSymbolTable,
}

/// What the `elf` crate reads from an ELF image as its dynamic symbol table,
/// each symbol with its name and `st_value`, in table order: `Err` where it
/// refuses the image, `Ok(None)` where the image has no such table.
pub uninterp spec fn dynamic_symbols_of(image: Seq<u8>) -> Result<Option<Seq<(Seq<u8>, u64)>>, ()>;

/// Relies on `elf::ElfBytes::<AnyEndian>::minimal_parse`, `dynamic_symbol_table`
/// and `StringTable::get_raw`: the parse of an image in either byte order and
/// either class, and each symbol's name and `st_value`. The outcome depends on
/// the bytes of the image alone.
#[verifier::external_body]
fn read_dynamic_symbols(image: &[u8]) -> (r: Result<Option<Vec<DynSymbol>>, elf::ParseError>)
    ensures
        match r {
            Ok(Some(v)) => dynamic_symbols_of(image@) == Ok::<_, ()>(Some(symbol_pairs(v@))),
            Ok(None) => dynamic_symbols_of(image@) == Ok::<_, ()>(None::<Seq<(Seq<u8>, u64)>>),
            Err(_) => dynamic_symbols_of(image@) is Err,
        },
{
    let file = elf::ElfBytes::<elf::endian::AnyEndian>::minimal_parse(image)?;
    let Some((syms, names)) = file.dynamic_symbol_table()? else {
        return Ok(None);
    };
    let mut out = Vec::new();
    for sym in syms {
        let name = names.get_raw(sym.st_name as usize)?;
        out.push(DynSymbol { name: name.to_vec(), value: sym.st_value });
    }
    Ok(Some(out))
}

/// The dynamic symbols of an ELF image, in table order.
pub fn dynamic_symbols(image: &[u8]) -> (r: Result<Vec<DynSymbol>, ElfError>)
    ensures
        match r {
            Ok(v) => dynamic_symbols_of(image@) == Ok::<_, ()>(Some(symbol_pairs(v@))),
            Err(ElfError::NoDynamicSymbolTable) => dynamic_symbols_of(image@) == Ok::<_, ()>(
                None::<Seq<(Seq<u8>, u64)>>,
            ),
            Err(ElfError::Malformed) => dynamic_symbols_of(image@) is Err,
        },
{
    match read_dynamic_symbols(image) {
        Ok(Some(v)) => Ok(v),
        Ok(None) => Err(ElfError::NoDynamicSymbolTable),
        Err(_) => Err(ElfError::Malformed),
    }
}

} // verus!
