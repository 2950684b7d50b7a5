//! The patch pass: which symbol entries of which loaded objects are rewritten,
//! and where each trampoline jumps.

use vstd::prelude::*;
use crate::bytes::bytes_eq;
use crate::elf_symbols::{DynSymbol, ElfError, dynamic_symbols, dynamic_symbols_of, symbol_pairs};
use crate::link_map::RT_CONSISTENT;
use crate::patcher::{lemma_store_all_idempotent, store_all};
use crate::rules::RuleSet;
use crate::trampoline::{Arch, jmp_code};

verus! {

/// A loaded object: its load bias and its dynamic symbols.
#[derive(Debug)]
pub struct LoadedObject {
    pub load_bias: usize,
    pub symbols: Vec<DynSymbol>,
}

impl LoadedObject {
    pub open spec fn pair(self) -> (usize, Seq<(Seq<u8>, u64)>) {
        (self.load_bias, symbol_pairs(self.symbols@))
    }
}

pub open spec fn object_pairs(objs: Seq<LoadedObject>) -> Seq<(usize, Seq<(Seq<u8>, u64)>)> {
    objs.map_values(|o: LoadedObject| o.pair())
}

/// The file contents of a loaded object, with its load bias.
#[derive(Debug)]
pub struct LoadedImage {
    pub load_bias: usize,
    pub image: Vec<u8>,
}

impl LoadedImage {
    pub open spec fn pair(self) -> (usize, Seq<u8>) {
        (self.load_bias, self.image@)
    }
}

pub open spec fn image_pairs(imgs: Seq<LoadedImage>) -> Seq<(usize, Seq<u8>)> {
    imgs.map_values(|i: LoadedImage| i.pair())
}

/// A trampoline to write: at `pc`, jumping to `target`.
#[derive(Clone, Copy, Debug, PartialEq, Eq, Structural)]
pub struct Patch {
    pub pc: usize,
    pub target: usize,
}

impl Patch {
    pub open spec fn pair(self) -> (int, int) {
        (self.pc as int, self.target as int)
    }
}

pub open spec fn patch_pairs(ps: Seq<Patch>) -> Seq<(int, int)> {
    ps.map_values(|p: Patch| p.pair())
}

/// Why a patch pass cannot be made.
#[derive(Clone, Copy, Debug, PartialEq, Eq, Structural)]
pub enum ShimError {
    /// A replacement name is found in no loaded object, or at address zero.
    Unresolved,
    /// A load bias plus a symbol value exceeds the address space.
    AddressOverflow,
    /// An object's dynamic symbols cannot be read.
    Elf(ElfError),
}

// ---------------------------------------------------------------------------
// Resolution

/// The index of the first symbol named `name` in a symbol table.
pub open spec fn find_in_table(syms: Seq<(Seq<u8>, u64)>, name: Seq<u8>) -> Option<int>
    decreases syms.len(),
{
    if syms.len() == 0 {
        None
    } else {
        match find_in_table(syms.drop_last(), name) {
            Some(j) => Some(j),
            None => if syms.last().0 == name {
                Some(syms.len() - 1)
            } else {
                None
            },
        }
    }
}

/// The address of `name` in the first object that defines it: its load
/// bias plus the symbol's value.
pub open spec fn lookup_address(objs: Seq<(usize, Seq<(Seq<u8>, u64)>)>, name: Seq<u8>) -> Option<int>
    decreases objs.len(),
{
    if objs.len() == 0 {
        None
    } else {
        match lookup_address(objs.drop_last(), name) {
            Some(a) => Some(a),
            None => match find_in_table(objs.last().1, name) {
                Some(j) => Some(objs.last().0 + objs.last().1[j].1),
                None => None,
            },
        }
    }
}

/// What resolving `name` against the loaded objects gives.
pub open spec fn resolution(objs: Seq<(usize, Seq<(Seq<u8>, u64)>)>, name: Seq<u8>) -> Result<int, ShimError> {
    match lookup_address(objs, name) {
        None => Err(ShimError::Unresolved),
        Some(a) => if a == 0 {
            Err(ShimError::Unresolved)
        } else if a > usize::MAX {
            Err(ShimError::AddressOverflow)
        } else {
            Ok(a)
        },
    }
}

fn find_symbol(syms: &Vec<DynSymbol>, name: &[u8]) -> (r: Option<usize>)
    ensures
        match r {
            Some(j) => find_in_table(symbol_pairs(syms@), name@) == Some(j as int) && j < syms.len(),
            None => find_in_table(symbol_pairs(syms@), name@) is None,
        },
{
    let ghost all = symbol_pairs(syms@);
    let mut found: Option<usize> = None;
    let mut j: usize = 0;
    while j < syms.len()
        invariant
            j <= syms.len(),
            all == symbol_pairs(syms@),
            match found {
                Some(k) => find_in_table(all.take(j as int), name@) == Some(k as int) && k < j,
                None => find_in_table(all.take(j as int), name@) is None,
            },
        decreases syms.len() - j,
    {
        proof {
            assert(all.take(j + 1).drop_last() =~= all.take(j as int));
        }
        if found.is_none() && bytes_eq(syms[j].name.as_slice(), name) {
            found = Some(j);
        }
        j += 1;
    }
    proof {
        assert(all.take(j as int) =~= all);
    }
    found
}

/// The address of `name` in the first loaded object that defines it, in list
/// order; an error where none does or the address is zero.
pub fn dlsym(name: &[u8], objects: &Vec<LoadedObject>) -> (r: Result<usize, ShimError>)
    ensures
        match r {
            Ok(a) => resolution(object_pairs(objects@), name@) == Ok::<int, ShimError>(a as int),
            Err(e) => resolution(object_pairs(objects@), name@) == Err::<int, ShimError>(e),
        },
{
    let ghost all = object_pairs(objects@);
    let mut found: Option<(usize, u64)> = None;
    let mut i: usize = 0;
    while i < objects.len()
        invariant
            i <= objects.len(),
            all == object_pairs(objects@),
            match found {
                Some((b, v)) => lookup_address(all.take(i as int), name@) == Some(b + v),
                None => lookup_address(all.take(i as int), name@) is None,
            },
        decreases objects.len() - i,
    {
        proof {
            assert(all.take(i + 1).drop_last() =~= all.take(i as int));
        }
        if found.is_none() {
            let obj = &objects[i];
            match find_symbol(&obj.symbols, name) {
                Some(j) => {
                    found = Some((obj.load_bias, obj.symbols[j].value));
                },
                None => {},
            }
        }
        i += 1;
    }
    proof {
        assert(all.take(i as int) =~= all);
    }
    match found {
        None => Err(ShimError::Unresolved),
        Some((b, v)) => {
            if v > (usize::MAX - b) as u64 {
                Err(ShimError::AddressOverflow)
            } else {
                let a = b + v as usize;
                if a == 0 {
                    Err(ShimError::Unresolved)
                } else {
                    Ok(a)
                }
            }
        },
    }
}


// ---------------------------------------------------------------------------
// The pass

/// The patches for one object: for each of its symbols, in table order, that
/// a rule names, a jump from the symbol's address to the resolved
/// replacement; the first failure, if any.
pub open spec fn lib_patches(
    rules: Map<Seq<u8>, Seq<u8>>,
    bias: usize,
    syms: Seq<(Seq<u8>, u64)>,
    objs: Seq<(usize, Seq<(Seq<u8>, u64)>)>,
) -> Result<Seq<(int, int)>, ShimError>
    decreases syms.len(),
{
    if syms.len() == 0 {
        Ok(Seq::empty())
    } else {
        match lib_patches(rules, bias, syms.drop_last(), objs) {
            Err(e) => Err(e),
            Ok(ps) => {
                let s = syms.last();
                if !rules.contains_key(s.0) {
                    Ok(ps)
                } else if bias + s.1 > usize::MAX {
                    Err(ShimError::AddressOverflow)
                } else {
                    match resolution(objs, rules[s.0]) {
                        Err(e) => Err(e),
                        Ok(t) => Ok(ps.push((bias + s.1, t))),
                    }
                }
            },
        }
    }
}

/// The patches for the objects of `todo`, in list order, each resolved
/// against all of `objs`.
pub open spec fn objects_patches(
    rules: Map<Seq<u8>, Seq<u8>>,
    todo: Seq<(usize, Seq<(Seq<u8>, u64)>)>,
    objs: Seq<(usize, Seq<(Seq<u8>, u64)>)>,
) -> Result<Seq<(int, int)>, ShimError>
    decreases todo.len(),
{
    if todo.len() == 0 {
        Ok(Seq::empty())
    } else {
        match objects_patches(rules, todo.drop_last(), objs) {
            Err(e) => Err(e),
            Ok(ps) => match lib_patches(rules, todo.last().0, todo.last().1, objs) {
                Err(e) => Err(e),
                Ok(qs) => Ok(ps + qs),
            },
        }
    }
}

/// What one pass writes, in order: the hook at the linker's breakpoint
/// `brk`, then the patches of every object.
pub open spec fn pass_patches(
    rules: Map<Seq<u8>, Seq<u8>>,
    objs: Seq<(usize, Seq<(Seq<u8>, u64)>)>,
    brk: usize,
    hook: usize,
) -> Result<Seq<(int, int)>, ShimError> {
    match objects_patches(rules, objs, objs) {
        Err(e) => Err(e),
        Ok(ps) => Ok(seq![(brk as int, hook as int)] + ps),
    }
}

/// The symbols of each image, in order; the first image that cannot be read
/// decides the error.
pub open spec fn images_objects(imgs: Seq<(usize, Seq<u8>)>) -> Result<Seq<(usize, Seq<(Seq<u8>, u64)>)>, ElfError>
    decreases imgs.len(),
{
    if imgs.len() == 0 {
        Ok(Seq::empty())
    } else {
        match images_objects(imgs.drop_last()) {
            Err(e) => Err(e),
            Ok(os) => match dynamic_symbols_of(imgs.last().1) {
                Err(_) => Err(ElfError::Malformed),
                Ok(None) => Err(ElfError::NoDynamicSymbolTable),
                Ok(Some(syms)) => Ok(os.push((imgs.last().0, syms))),
            },
        }
    }
}

fn push_patches(out: &mut Vec<Patch>, more: &Vec<Patch>)
    ensures
        patch_pairs(final(out)@) == patch_pairs(old(out)@) + patch_pairs(more@),
{
    let mut i: usize = 0;
    while i < more.len()
        invariant
            i <= more.len(),
            patch_pairs(out@) == patch_pairs(old(out)@) + patch_pairs(more@).take(i as int),
        decreases more.len() - i,
    {
        let ghost before = out@;
        out.push(more[i]);
        proof {
            assert(patch_pairs(out@) =~= patch_pairs(before).push(more@[i as int].pair()));
            assert(patch_pairs(more@).take(i + 1) =~= patch_pairs(more@).take(i as int).push(
                more@[i as int].pair(),
            ));
        }
        i += 1;
    }
    proof {
        assert(patch_pairs(more@).take(i as int) =~= patch_pairs(more@));
    }
}

/// The patches for one loaded object `obj`: each of its symbols that a rule
/// names is redirected to the replacement, resolved against `objects`.
pub fn shim_lib(rules: &RuleSet, obj: &LoadedObject, objects: &Vec<LoadedObject>) -> (r: Result<
    Vec<Patch>,
    ShimError,
>)
    ensures
        match r {
            Ok(ps) => lib_patches(rules@, obj.load_bias, obj.pair().1, object_pairs(objects@))
                == Ok::<_, ShimError>(patch_pairs(ps@)),
            Err(e) => lib_patches(rules@, obj.load_bias, obj.pair().1, object_pairs(objects@))
                == Err::<Seq<(int, int)>, _>(e),
        },
{
    let ghost syms = obj.pair().1;
    let ghost objs = object_pairs(objects@);
    let mut out: Vec<Patch> = Vec::new();
    let mut i: usize = 0;
    proof {
        assert(syms.take(0) =~= Seq::<(Seq<u8>, u64)>::empty());
        assert(patch_pairs(out@) =~= Seq::<(int, int)>::empty());
    }
    while i < obj.symbols.len()
        invariant
            i <= obj.symbols.len(),
            syms == obj.pair().1,
            objs == object_pairs(objects@),
            lib_patches(rules@, obj.load_bias, syms.take(i as int), objs) == Ok::<_, ShimError>(
                patch_pairs(out@),
            ),
        decreases obj.symbols.len() - i,
    {
        proof {
            assert(syms.take(i + 1).drop_last() =~= syms.take(i as int));
        }
        let sym = &obj.symbols[i];
        match rules.get(sym.name.as_slice()) {
            None => {},
            Some(repl) => {
                if sym.value > (usize::MAX - obj.load_bias) as u64 {
                    proof {
                        lemma_lib_patches_err(rules@, obj.load_bias, syms, objs, i as int, ShimError::AddressOverflow);
                    }
                    return Err(ShimError::AddressOverflow);
                }
                let pc = obj.load_bias + sym.value as usize;
                match dlsym(repl.as_slice(), objects) {
                    Err(e) => {
                        proof {
                            lemma_lib_patches_err(rules@, obj.load_bias, syms, objs, i as int, e);
                        }
                        return Err(e);
                    },
                    Ok(target) => {
                        let ghost before = out@;
                        out.push(Patch { pc, target });
                        proof {
                            assert(patch_pairs(out@) =~= patch_pairs(before).push((pc as int, target as int)));
                        }
                    },
                }
            },
        }
        i += 1;
    }
    proof {
        assert(syms.take(i as int) =~= syms);
    }
    Ok(out)
}

/// Once the patches of the first `i + 1` symbols fail with `e`, so do those of
/// the whole table.
proof fn lemma_lib_patches_err(
    rules: Map<Seq<u8>, Seq<u8>>,
    bias: usize,
    syms: Seq<(Seq<u8>, u64)>,
    objs: Seq<(usize, Seq<(Seq<u8>, u64)>)>,
    i: int,
    e: ShimError,
)
    requires
        0 <= i < syms.len(),
        lib_patches(rules, bias, syms.take(i + 1), objs) == Err::<Seq<(int, int)>, _>(e),
    ensures
        lib_patches(rules, bias, syms, objs) == Err::<Seq<(int, int)>, _>(e),
    decreases syms.len() - i,
{
    if i + 1 < syms.len() {
        assert(syms.take(i + 2).drop_last() =~= syms.take(i + 1));
        lemma_lib_patches_err(rules, bias, syms, objs, i + 1, e);
    } else {
        assert(syms.take(i + 1) =~= syms);
    }
}

/// One patch pass over the loaded objects, run when the linker reports the
/// rendezvous state `state`.
///
/// Outside the consistent state the pass writes nothing. Otherwise it first
/// reinstalls the hook, a jump from the linker's breakpoint `brk` to `hook`,
/// then patches every object in list order.
pub fn shim_all_libs(
    state: u32,
    rules: &RuleSet,
    objects: &Vec<LoadedObject>,
    brk: usize,
    hook: usize,
) -> (r: Result<Vec<Patch>, ShimError>)
    ensures
        state != RT_CONSISTENT ==> (r matches Ok(ps) && ps@.len() == 0),
        state == RT_CONSISTENT ==> match r {
            Ok(ps) => pass_patches(rules@, object_pairs(objects@), brk, hook) == Ok::<_, ShimError>(
                patch_pairs(ps@),
            ),
            Err(e) => pass_patches(rules@, object_pairs(objects@), brk, hook) == Err::<
                Seq<(int, int)>,
                _,
            >(e),
        },
{
    if state != RT_CONSISTENT {
        return Ok(Vec::new());
    }
    let ghost objs = object_pairs(objects@);
    let mut out: Vec<Patch> = Vec::new();
    out.push(Patch { pc: brk, target: hook });
    let mut i: usize = 0;
    proof {
        assert(objs.take(0) =~= Seq::<(usize, Seq<(Seq<u8>, u64)>)>::empty());
    }
    while i < objects.len()
        invariant
            i <= objects.len(),
            state == RT_CONSISTENT,
            objs == object_pairs(objects@),
            objects_patches(rules@, objs.take(i as int), objs) matches Ok(ps) && patch_pairs(out@)
                == seq![(brk as int, hook as int)] + ps,
        decreases objects.len() - i,
    {
        proof {
            assert(objs.take(i + 1).drop_last() =~= objs.take(i as int));
            assert(objs.take(i + 1).last() == objects@[i as int].pair());
        }
        match shim_lib(rules, &objects[i], objects) {
            Err(e) => {
                proof {
                    lemma_objects_patches_err(rules@, objs, i as int, e);
                }
                return Err(e);
            },
            Ok(more) => {
                let ghost before = patch_pairs(out@);
                push_patches(&mut out, &more);
                proof {
                    let ps = objects_patches(rules@, objs.take(i as int), objs)->Ok_0;
                    assert(before + patch_pairs(more@) =~= seq![(brk as int, hook as int)] + (ps
                        + patch_pairs(more@)));
                }
            },
        }
        i += 1;
    }
    proof {
        assert(objs.take(i as int) =~= objs);
    }
    Ok(out)
}

proof fn lemma_objects_patches_err(
    rules: Map<Seq<u8>, Seq<u8>>,
    objs: Seq<(usize, Seq<(Seq<u8>, u64)>)>,
    i: int,
    e: ShimError,
)
    requires
        0 <= i < objs.len(),
        objects_patches(rules, objs.take(i + 1), objs) == Err::<Seq<(int, int)>, _>(e),
    ensures
        objects_patches(rules, objs, objs) == Err::<Seq<(int, int)>, _>(e),
    decreases objs.len() - i,
{
    if i + 1 < objs.len() {
        assert(objs.take(i + 2).drop_last() =~= objs.take(i + 1));
        lemma_objects_patches_err(rules, objs, i + 1, e);
    } else {
        assert(objs.take(i + 1) =~= objs);
    }
}

/// One patch pass over the file images of the loaded objects: their dynamic
/// symbols are read, then the pass runs as `shim_all_libs` does. Outside the
/// consistent state no image is read and nothing is written.
pub fn shim_images(
    state: u32,
    rules: &RuleSet,
    images: &Vec<LoadedImage>,
    brk: usize,
    hook: usize,
) -> (r: Result<Vec<Patch>, ShimError>)
    ensures
        state != RT_CONSISTENT ==> (r matches Ok(ps) && ps@.len() == 0),
        state == RT_CONSISTENT ==> match images_objects(image_pairs(images@)) {
            Err(e) => r == Err::<Vec<Patch>, _>(ShimError::Elf(e)),
            Ok(objs) => match r {
                Ok(ps) => pass_patches(rules@, objs, brk, hook) == Ok::<_, ShimError>(
                    patch_pairs(ps@),
                ),
                Err(e) => pass_patches(rules@, objs, brk, hook) == Err::<Seq<(int, int)>, _>(e),
            },
        },
{
    if state != RT_CONSISTENT {
        return Ok(Vec::new());
    }
    let ghost imgs = image_pairs(images@);
    let mut objects: Vec<LoadedObject> = Vec::new();
    let mut i: usize = 0;
    proof {
        assert(imgs.take(0) =~= Seq::<(usize, Seq<u8>)>::empty());
        assert(object_pairs(objects@) =~= Seq::<(usize, Seq<(Seq<u8>, u64)>)>::empty());
    }
    while i < images.len()
        invariant
            i <= images.len(),
            state == RT_CONSISTENT,
            imgs == image_pairs(images@),
            images_objects(imgs.take(i as int)) == Ok::<_, ElfError>(object_pairs(objects@)),
        decreases images.len() - i,
    {
        proof {
            assert(imgs.take(i + 1).drop_last() =~= imgs.take(i as int));
            assert(imgs.take(i + 1).last() == images@[i as int].pair());
        }
        let img = &images[i];
        match dynamic_symbols(img.image.as_slice()) {
            Err(e) => {
                proof {
                    lemma_images_objects_err(imgs, i as int, e);
                }
                return Err(ShimError::Elf(e));
            },
            Ok(symbols) => {
                let ghost before = object_pairs(objects@);
                let obj = LoadedObject { load_bias: img.load_bias, symbols };
                objects.push(obj);
                proof {
                    assert(object_pairs(objects@) =~= before.push(obj.pair()));
                }
            },
        }
        i += 1;
    }
    proof {
        assert(imgs.take(i as int) =~= imgs);
    }
    shim_all_libs(state, rules, &objects, brk, hook)
}

proof fn lemma_images_objects_err(imgs: Seq<(usize, Seq<u8>)>, i: int, e: ElfError)
    requires
        0 <= i < imgs.len(),
        images_objects(imgs.take(i + 1)) == Err::<Seq<(usize, Seq<(Seq<u8>, u64)>)>, _>(e),
    ensures
        images_objects(imgs) == Err::<Seq<(usize, Seq<(Seq<u8>, u64)>)>, _>(e),
    decreases imgs.len() - i,
{
    if i + 1 < imgs.len() {
        assert(imgs.take(i + 2).drop_last() =~= imgs.take(i + 1));
        lemma_images_objects_err(imgs, i + 1, e);
    } else {
        assert(imgs.take(i + 1) =~= imgs);
    }
}

// ---------------------------------------------------------------------------
// Laws of the pass

proof fn lemma_lib_patches_contains(
    rules: Map<Seq<u8>, Seq<u8>>,
    bias: usize,
    syms: Seq<(Seq<u8>, u64)>,
    objs: Seq<(usize, Seq<(Seq<u8>, u64)>)>,
    j: int,
)
    requires
        lib_patches(rules, bias, syms, objs) is Ok,
        0 <= j < syms.len(),
        rules.contains_key(syms[j].0),
    ensures
        resolution(objs, rules[syms[j].0]) is Ok,
        lib_patches(rules, bias, syms, objs)->Ok_0.contains(
            (bias + syms[j].1, resolution(objs, rules[syms[j].0])->Ok_0),
        ),
    decreases syms.len(),
{
    let ps = lib_patches(rules, bias, syms, objs)->Ok_0;
    let prev = lib_patches(rules, bias, syms.drop_last(), objs)->Ok_0;
    if j == syms.len() - 1 {
        assert(ps.last() == (bias + syms[j].1, resolution(objs, rules[syms[j].0])->Ok_0));
        assert(ps[ps.len() - 1] == ps.last());
    } else {
        assert(syms.drop_last()[j] == syms[j]);
        lemma_lib_patches_contains(rules, bias, syms.drop_last(), objs, j);
        let q = (bias + syms[j].1, resolution(objs, rules[syms[j].0])->Ok_0);
        let m = choose|m: int| 0 <= m < prev.len() && prev[m] == q;
        if rules.contains_key(syms.last().0) {
            assert(ps[m] == prev[m]);
        }
    }
}

proof fn lemma_objects_patches_contains(
    rules: Map<Seq<u8>, Seq<u8>>,
    todo: Seq<(usize, Seq<(Seq<u8>, u64)>)>,
    objs: Seq<(usize, Seq<(Seq<u8>, u64)>)>,
    k: int,
    j: int,
)
    requires
        objects_patches(rules, todo, objs) is Ok,
        0 <= k < todo.len(),
        0 <= j < todo[k].1.len(),
        rules.contains_key(todo[k].1[j].0),
    ensures
        resolution(objs, rules[todo[k].1[j].0]) is Ok,
        objects_patches(rules, todo, objs)->Ok_0.contains(
            (todo[k].0 + todo[k].1[j].1, resolution(objs, rules[todo[k].1[j].0])->Ok_0),
        ),
    decreases todo.len(),
{
    let ps = objects_patches(rules, todo.drop_last(), objs)->Ok_0;
    let qs = lib_patches(rules, todo.last().0, todo.last().1, objs)->Ok_0;
    let all = objects_patches(rules, todo, objs)->Ok_0;
    assert(all == ps + qs);
    let q = (todo[k].0 + todo[k].1[j].1, resolution(objs, rules[todo[k].1[j].0])->Ok_0);
    if k == todo.len() - 1 {
        lemma_lib_patches_contains(rules, todo.last().0, todo.last().1, objs, j);
        let m = choose|m: int| 0 <= m < qs.len() && qs[m] == q;
        assert(all[ps.len() + m] == q);
    } else {
        assert(todo.drop_last()[k] == todo[k]);
        lemma_objects_patches_contains(rules, todo.drop_last(), objs, k, j);
        let m = choose|m: int| 0 <= m < ps.len() && ps[m] == q;
        assert(all[m] == q);
    }
}

/// A pass patches every symbol that a rule names in every object it is
/// given: an object newly added to the list has its named symbols
/// redirected by the next pass, at its load bias plus the symbol's value, to
/// the resolved replacement.
pub proof fn lemma_pass_covers_every_object(
    rules: Map<Seq<u8>, Seq<u8>>,
    objs: Seq<(usize, Seq<(Seq<u8>, u64)>)>,
    brk: usize,
    hook: usize,
    k: int,
    j: int,
)
    requires
        pass_patches(rules, objs, brk, hook) is Ok,
        0 <= k < objs.len(),
        0 <= j < objs[k].1.len(),
        rules.contains_key(objs[k].1[j].0),
    ensures
        resolution(objs, rules[objs[k].1[j].0]) is Ok,
        pass_patches(rules, objs, brk, hook)->Ok_0.contains(
            (objs[k].0 + objs[k].1[j].1, resolution(objs, rules[objs[k].1[j].0])->Ok_0),
        ),
{
    lemma_objects_patches_contains(rules, objs, objs, k, j);
    let ps = objects_patches(rules, objs, objs)->Ok_0;
    let all = pass_patches(rules, objs, brk, hook)->Ok_0;
    let q = (objs[k].0 + objs[k].1[j].1, resolution(objs, rules[objs[k].1[j].0])->Ok_0);
    let m = choose|m: int| 0 <= m < ps.len() && ps[m] == q;
    assert(all[m + 1] == q);
}

/// The trampolines that a list of patches stores for `arch`.
pub open spec fn patch_writes(arch: Arch, ps: Seq<(int, int)>) -> Seq<(int, Seq<u8>)> {
    ps.map_values(|p: (int, int)| (p.0, jmp_code(arch, p.0 as usize, p.1 as usize)))
}

/// Running a pass twice on the same objects leaves every byte of memory as
/// running it once: the second pass computes the same patches, and storing
/// the same trampolines again changes nothing.
pub proof fn lemma_pass_idempotent(
    mem: spec_fn(int) -> u8,
    arch: Arch,
    rules: Map<Seq<u8>, Seq<u8>>,
    objs: Seq<(usize, Seq<(Seq<u8>, u64)>)>,
    brk: usize,
    hook: usize,
    a: int,
)
    requires
        pass_patches(rules, objs, brk, hook) is Ok,
    ensures
        ({
            let ws = patch_writes(arch, pass_patches(rules, objs, brk, hook)->Ok_0);
            store_all(store_all(mem, ws), ws)(a) == store_all(mem, ws)(a)
        }),
{
    let ws = patch_writes(arch, pass_patches(rules, objs, brk, hook)->Ok_0);
    lemma_store_all_idempotent(mem, ws, a);
}

} // verus!
