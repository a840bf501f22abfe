//! Import tables: descriptors, hint/name entries, thunk arrays and library names in
//! one blob.

use crate::bytes::{append_bytes, append_u32, append_u64, append_zeros};
use crate::bytes::{u32_bytes, u64_bytes, zeros};
use vstd::prelude::*;
use vstd::utf8::encode_utf8;

verus! {

/// Functions imported from one library.
#[derive(Clone)]
pub struct ImportSpec {
    pub dll: &'static str,
    pub functions: Vec<&'static str>,
}

pub struct ImportPlan {
    pub dll: Seq<char>,
    pub functions: Seq<Seq<char>>,
}

impl View for ImportSpec {
    type V = ImportPlan;

    open spec fn view(&self) -> ImportPlan {
        ImportPlan { dll: self.dll@, functions: names(self.functions@) }
    }
}

/// The views of a sequence of names.
pub open spec fn names(items: Seq<&'static str>) -> Seq<Seq<char>> {
    items.map_values(|s: &'static str| s@)
}

pub open spec fn import_plans(imports: Seq<ImportSpec>) -> Seq<ImportPlan> {
    imports.map_values(|i: ImportSpec| i@)
}

/// The hint/name entry of a function: a zero hint, the name and its end.
pub open spec fn hint_name(function: Seq<char>) -> Seq<u8> {
    zeros(2) + encode_utf8(function) + zeros(1)
}

/// The hint/name entries one after another.
pub open spec fn hint_names(functions: Seq<Seq<char>>) -> Seq<u8>
    decreases functions.len(),
{
    if functions.len() == 0 {
        Seq::empty()
    } else {
        hint_names(functions.drop_last()) + hint_name(functions.last())
    }
}

/// The first `n` thunks: the address of each hint/name entry, where the first one
/// stands at `rva`.
pub open spec fn thunk_entries(functions: Seq<Seq<char>>, rva: nat, n: nat) -> Seq<u8>
    decreases n,
{
    if n == 0 {
        Seq::empty()
    } else {
        thunk_entries(functions, rva, (n - 1) as nat) + u64_bytes(
            rva + hint_names(functions.take(n - 1)).len(),
        )
    }
}

/// A thunk array: the thunks and the zero thunk that ends them.
pub open spec fn thunks(functions: Seq<Seq<char>>, rva: nat) -> Seq<u8> {
    thunk_entries(functions, rva, functions.len()) + u64_bytes(0)
}

/// What one library adds to the blob at `rva`: hint/name entries, lookup table and
/// address table.
pub open spec fn import_block(plan: ImportPlan, rva: nat) -> Seq<u8> {
    hint_names(plan.functions) + thunks(plan.functions, rva) + thunks(plan.functions, rva)
}

pub open spec fn block_len(plan: ImportPlan) -> nat {
    hint_names(plan.functions).len() + 16 * (plan.functions.len() + 1)
}

/// The length of the blocks of all libraries.
pub open spec fn blocks_len(plans: Seq<ImportPlan>) -> nat
    decreases plans.len(),
{
    if plans.len() == 0 {
        0
    } else {
        blocks_len(plans.drop_last()) + block_len(plans.last())
    }
}

/// The blocks of all libraries, the first one at `rva`.
pub open spec fn import_blocks(plans: Seq<ImportPlan>, rva: nat) -> Seq<u8>
    decreases plans.len(),
{
    if plans.len() == 0 {
        Seq::empty()
    } else {
        import_blocks(plans.drop_last(), rva) + import_block(
            plans.last(),
            rva + blocks_len(plans.drop_last()),
        )
    }
}

/// The library names, each with its end.
pub open spec fn library_names(plans: Seq<ImportPlan>) -> Seq<u8>
    decreases plans.len(),
{
    if plans.len() == 0 {
        Seq::empty()
    } else {
        library_names(plans.drop_last()) + encode_utf8(plans.last().dll) + zeros(1)
    }
}

/// The length of the descriptor table with the empty descriptor that ends it.
pub open spec fn table_len(plans: Seq<ImportPlan>) -> nat {
    20 * (plans.len() + 1)
}

/// Where the lookup table of library `i` stands in the blob.
pub open spec fn lookup_offset(plans: Seq<ImportPlan>, i: int) -> nat {
    table_len(plans) + blocks_len(plans.take(i)) + hint_names(plans[i].functions).len()
}

/// Where the address table of library `i` stands in the blob.
pub open spec fn address_offset(plans: Seq<ImportPlan>, i: int) -> nat {
    lookup_offset(plans, i) + 8 * (plans[i].functions.len() + 1)
}

/// Where the name of library `i` stands in the blob.
pub open spec fn library_offset(plans: Seq<ImportPlan>, i: int) -> nat {
    table_len(plans) + blocks_len(plans) + library_names(plans.take(i)).len()
}

/// The descriptor of library `i`.
pub open spec fn descriptor(plans: Seq<ImportPlan>, rva: nat, i: int) -> Seq<u8> {
    u32_bytes(rva + lookup_offset(plans, i)) + zeros(8) + u32_bytes(
        rva + library_offset(plans, i),
    ) + u32_bytes(rva + address_offset(plans, i))
}

/// The descriptors of the first `n` libraries.
pub open spec fn descriptors(plans: Seq<ImportPlan>, rva: nat, n: nat) -> Seq<u8>
    decreases n,
{
    if n == 0 {
        Seq::empty()
    } else {
        descriptors(plans, rva, (n - 1) as nat) + descriptor(plans, rva, n - 1)
    }
}

pub open spec fn blob_len(plans: Seq<ImportPlan>) -> nat {
    table_len(plans) + blocks_len(plans) + library_names(plans).len()
}

/// The import table of an image that is loaded with the table at `rva`.
pub open spec fn import_blob(plans: Seq<ImportPlan>, rva: nat) -> Seq<u8> {
    descriptors(plans, rva, plans.len()) + zeros(20) + import_blocks(plans, rva + table_len(plans))
        + library_names(plans)
}

/// Where the address tables start in the blob.
pub open spec fn address_start(plans: Seq<ImportPlan>) -> nat {
    if plans.len() == 0 {
        0
    } else {
        address_offset(plans, 0)
    }
}

/// Where the last address table ends in the blob.
pub open spec fn address_end(plans: Seq<ImportPlan>) -> nat {
    if plans.len() == 0 {
        0
    } else {
        address_offset(plans, plans.len() - 1) + 8 * (plans.last().functions.len() + 1)
    }
}

pub proof fn lemma_take_next<A>(s: Seq<A>, i: int)
    requires
        0 <= i < s.len(),
    ensures
        s.take(i + 1).drop_last() == s.take(i),
        s.take(i + 1).last() == s[i],
        s.take(s.len() as int) == s,
{
    assert(s.take(i + 1).drop_last() =~= s.take(i));
    assert(s.take(s.len() as int) =~= s);
}

pub proof fn lemma_thunk_entries_len(functions: Seq<Seq<char>>, rva: nat, n: nat)
    ensures
        thunk_entries(functions, rva, n).len() == 8 * n,
    decreases n,
{
    if n > 0 {
        lemma_thunk_entries_len(functions, rva, (n - 1) as nat);
    }
}

pub proof fn lemma_block_len(plan: ImportPlan, rva: nat)
    ensures
        import_block(plan, rva).len() == block_len(plan),
{
    lemma_thunk_entries_len(plan.functions, rva, plan.functions.len());
}

pub proof fn lemma_blocks_len(plans: Seq<ImportPlan>, rva: nat)
    ensures
        import_blocks(plans, rva).len() == blocks_len(plans),
    decreases plans.len(),
{
    if plans.len() > 0 {
        lemma_blocks_len(plans.drop_last(), rva);
        lemma_block_len(plans.last(), rva + blocks_len(plans.drop_last()));
    }
}

pub proof fn lemma_descriptors_len(plans: Seq<ImportPlan>, rva: nat, n: nat)
    ensures
        descriptors(plans, rva, n).len() == 20 * n,
    decreases n,
{
    if n > 0 {
        lemma_descriptors_len(plans, rva, (n - 1) as nat);
    }
}

pub proof fn lemma_blob_len(plans: Seq<ImportPlan>, rva: nat)
    ensures
        import_blob(plans, rva).len() == blob_len(plans),
{
    lemma_descriptors_len(plans, rva, plans.len());
    lemma_blocks_len(plans, rva + table_len(plans));
}

pub proof fn lemma_hint_names_grow(functions: Seq<Seq<char>>, k: int)
    requires
        0 <= k <= functions.len(),
    ensures
        hint_names(functions.take(k)).len() <= hint_names(functions).len(),
    decreases functions.len() - k,
{
    if k < functions.len() {
        lemma_hint_names_grow(functions, k + 1);
        lemma_take_next(functions, k);
    } else {
        assert(functions.take(k) =~= functions);
    }
}

pub proof fn lemma_blocks_grow(plans: Seq<ImportPlan>, k: int)
    requires
        0 <= k <= plans.len(),
    ensures
        blocks_len(plans.take(k)) <= blocks_len(plans),
        k < plans.len() ==> blocks_len(plans.take(k)) + block_len(plans[k]) <= blocks_len(plans),
        library_names(plans.take(k)).len() <= library_names(plans).len(),
    decreases plans.len() - k,
{
    if k < plans.len() {
        lemma_blocks_grow(plans, k + 1);
        lemma_take_next(plans, k);
    } else {
        assert(plans.take(k) =~= plans);
    }
}

/// Appends a hint/name entry.
fn append_hint_name(out: &mut Vec<u8>, function: &str)
    ensures
        final(out)@ == old(out)@ + hint_name(function@),
{
    append_zeros(out, 2);
    append_bytes(out, function.as_bytes());
    append_zeros(out, 1);
    assert(out@ =~= old(out)@ + hint_name(function@));
}

/// Appends a thunk array whose entries point to `starts`.
fn append_thunks(out: &mut Vec<u8>, starts: &[u32], functions: Ghost<Seq<Seq<char>>>, rva: Ghost<nat>)
    requires
        starts@.len() == functions@.len(),
        forall|k: int|
            0 <= k < starts@.len() ==> #[trigger] starts@[k] == rva@ + hint_names(
                functions@.take(k),
            ).len(),
    ensures
        final(out)@ == old(out)@ + thunks(functions@, rva@),
{
    let mut i: usize = 0;
    assert(out@ =~= old(out)@ + thunk_entries(functions@, rva@, 0));
    while i < starts.len()
        invariant
            i <= starts@.len(),
            starts@.len() == functions@.len(),
            forall|k: int|
                0 <= k < starts@.len() ==> #[trigger] starts@[k] == rva@ + hint_names(
                    functions@.take(k),
                ).len(),
            out@ == old(out)@ + thunk_entries(functions@, rva@, i as nat),
        decreases starts@.len() - i,
    {
        append_u64(out, starts[i] as u64);
        assert(out@ =~= old(out)@ + thunk_entries(functions@, rva@, (i + 1) as nat));
        i = i + 1;
    }
    append_u64(out, 0);
    assert(out@ =~= old(out)@ + thunks(functions@, rva@));
}

/// Appends what one library adds to the blob at `rva`, and returns the length of its
/// hint/name entries.
fn append_import_block(out: &mut Vec<u8>, import: &ImportSpec, rva: u32) -> (entries: usize)
    requires
        rva + block_len(import@) <= u32::MAX,
    ensures
        final(out)@ == old(out)@ + import_block(import@, rva as nat),
        entries == hint_names(import@.functions).len(),
{
    let ghost functions = import@.functions;
    let mut starts: Vec<u32> = Vec::new();
    let mut entries: u32 = 0;
    let mut i: usize = 0;
    assert(functions.take(0) =~= Seq::empty());
    assert(out@ =~= old(out)@ + hint_names(functions.take(0)));
    while i < import.functions.len()
        invariant
            i <= import.functions@.len(),
            functions == import@.functions,
            rva + block_len(import@) <= u32::MAX,
            entries == hint_names(functions.take(i as int)).len(),
            out@ == old(out)@ + hint_names(functions.take(i as int)),
            starts@.len() == i,
            forall|k: int|
                0 <= k < i ==> #[trigger] starts@[k] == rva + hint_names(functions.take(k)).len(),
        decreases import.functions@.len() - i,
    {
        proof {
            lemma_take_next(functions, i as int);
            lemma_hint_names_grow(functions, i + 1);
        }
        let function: &'static str = import.functions[i];
        assert(functions[i as int] == function@);
        starts.push(rva + entries);
        append_hint_name(out, function);
        let size: usize = function.as_bytes().len();
        assert(hint_name(function@).len() == size + 3);
        entries = entries + (size as u32 + 3);
        assert(out@ =~= old(out)@ + hint_names(functions.take(i + 1)));
        i = i + 1;
    }
    assert(functions.take(i as int) =~= functions);
    append_thunks(out, &starts, Ghost(functions), Ghost(rva as nat));
    append_thunks(out, &starts, Ghost(functions), Ghost(rva as nat));
    assert(out@ =~= old(out)@ + import_block(import@, rva as nat));
    entries as usize
}

/// The import table of an image, with what its directory entries say.
pub struct ImportTable {
    pub blob: Vec<u8>,
    pub directory_size: u32,
    pub address_rva: u32,
    pub address_size: u32,
}

/// Appends the blocks of all libraries, the first one at `rva`, and returns where each
/// lookup table stands in the blob.
fn append_blocks(out: &mut Vec<u8>, imports: &[ImportSpec], rva: u32, table: u32) -> (lookups: Vec<
    u32,
>)
    requires
        table == table_len(import_plans(imports@)),
        rva + table + blocks_len(import_plans(imports@)) <= u32::MAX,
    ensures
        final(out)@ == old(out)@ + import_blocks(import_plans(imports@), (rva + table) as nat),
        lookups@.len() == imports@.len(),
        forall|k: int|
            0 <= k < lookups@.len() ==> #[trigger] lookups@[k] == lookup_offset(
                import_plans(imports@),
                k,
            ),
{
    let ghost plans = import_plans(imports@);
    let ghost base = (rva + table) as nat;
    let mut lookups: Vec<u32> = Vec::new();
    let mut done: u32 = 0;
    let mut i: usize = 0;
    assert(plans.take(0) =~= Seq::empty());
    assert(out@ =~= old(out)@ + import_blocks(plans.take(0), base));
    while i < imports.len()
        invariant
            i <= imports@.len(),
            plans == import_plans(imports@),
            base == rva + table,
            table == table_len(plans),
            rva + table + blocks_len(plans) <= u32::MAX,
            done == blocks_len(plans.take(i as int)),
            out@ == old(out)@ + import_blocks(plans.take(i as int), base),
            lookups@.len() == i,
            forall|k: int| 0 <= k < i ==> #[trigger] lookups@[k] == lookup_offset(plans, k),
        decreases imports@.len() - i,
    {
        proof {
            lemma_take_next(plans, i as int);
            lemma_blocks_grow(plans, i as int);
            lemma_block_len(plans[i as int], base + blocks_len(plans.take(i as int)));
        }
        assert(plans[i as int] == imports@[i as int]@);
        let start: usize = out.len();
        let entries: usize = append_import_block(out, &imports[i], rva + table + done);
        assert(out@ =~= old(out)@ + import_blocks(plans.take(i + 1), base));
        lookups.push(table + done + entries as u32);
        done = done + (out.len() - start) as u32;
        i = i + 1;
    }
    assert(plans.take(i as int) =~= plans);
    lookups
}

/// The library names, and where each stands among them.
fn library_name_block(imports: &[ImportSpec]) -> (r: (Vec<u8>, Vec<u32>))
    requires
        library_names(import_plans(imports@)).len() <= u32::MAX,
    ensures
        r.0@ == library_names(import_plans(imports@)),
        r.1@.len() == imports@.len(),
        forall|k: int|
            0 <= k < r.1@.len() ==> #[trigger] r.1@[k] == library_names(
                import_plans(imports@).take(k),
            ).len(),
{
    let ghost plans = import_plans(imports@);
    let mut block: Vec<u8> = Vec::new();
    let mut starts: Vec<u32> = Vec::new();
    let mut i: usize = 0;
    assert(plans.take(0) =~= Seq::empty());
    assert(block@ =~= library_names(plans.take(0)));
    while i < imports.len()
        invariant
            i <= imports@.len(),
            plans == import_plans(imports@),
            library_names(plans).len() <= u32::MAX,
            block@ == library_names(plans.take(i as int)),
            starts@.len() == i,
            forall|k: int|
                0 <= k < i ==> #[trigger] starts@[k] == library_names(plans.take(k)).len(),
        decreases imports@.len() - i,
    {
        proof {
            lemma_take_next(plans, i as int);
            lemma_blocks_grow(plans, i as int);
        }
        assert(plans[i as int] == imports@[i as int]@);
        starts.push(block.len() as u32);
        append_bytes(&mut block, imports[i].dll.as_bytes());
        append_zeros(&mut block, 1);
        assert(block@ =~= library_names(plans.take(i + 1)));
        i = i + 1;
    }
    assert(plans.take(i as int) =~= plans);
    (block, starts)
}

/// The import table of an image that is loaded with the table at `rva`.
pub fn build_import_blob(imports: &[ImportSpec], rva: u32) -> (table: ImportTable)
    requires
        rva + blob_len(import_plans(imports@)) <= u32::MAX,
    ensures
        table.blob@ == import_blob(import_plans(imports@), rva as nat),
        table.directory_size == table_len(import_plans(imports@)),
        table.address_rva == rva + address_start(import_plans(imports@)),
        table.address_size == address_end(import_plans(imports@)) - address_start(
            import_plans(imports@),
        ),
{
    let ghost plans = import_plans(imports@);
    let total: usize = imports.len();
    assert(plans.len() == total);
    let table: u32 = 20 * (total as u32 + 1);
    let mut blocks: Vec<u8> = Vec::new();
    let lookups = append_blocks(&mut blocks, imports, rva, table);
    assert(blocks@ =~= import_blocks(plans, rva as nat + table_len(plans)));
    proof {
        lemma_blocks_len(plans, rva as nat + table_len(plans));
    }
    let (library_block, library_starts) = library_name_block(imports);
    let libraries: u32 = table + blocks.len() as u32;
    let mut blob: Vec<u8> = Vec::new();
    let mut i: usize = 0;
    assert(blob@ =~= descriptors(plans, rva as nat, 0));
    while i < total
        invariant
            i <= total == imports@.len(),
            plans == import_plans(imports@),
            rva + blob_len(plans) <= u32::MAX,
            libraries == table_len(plans) + blocks_len(plans),
            lookups@.len() == total,
            library_starts@.len() == total,
            forall|k: int| 0 <= k < total ==> #[trigger] lookups@[k] == lookup_offset(plans, k),
            forall|k: int|
                0 <= k < total ==> #[trigger] library_starts@[k] == library_names(
                    plans.take(k),
                ).len(),
            blob@ == descriptors(plans, rva as nat, i as nat),
        decreases total - i,
    {
        proof {
            lemma_blocks_grow(plans, i as int);
        }
        assert(plans[i as int] == imports@[i as int]@);
        assert(block_len(plans[i as int]) >= 16 * (imports@[i as int].functions@.len() + 1));
        let address: u32 = lookups[i] + 8 * (imports[i].functions.len() as u32 + 1);
        append_u32(&mut blob, rva + lookups[i]);
        append_zeros(&mut blob, 8);
        append_u32(&mut blob, rva + (libraries + library_starts[i]));
        append_u32(&mut blob, rva + address);
        assert(blob@ =~= descriptors(plans, rva as nat, (i + 1) as nat));
        i = i + 1;
    }
    append_zeros(&mut blob, 20);
    append_bytes(&mut blob, &blocks);
    append_bytes(&mut blob, &library_block);
    let mut address_rva: u32 = rva;
    let mut address_size: u32 = 0;
    if total > 0 {
        let last: usize = total - 1;
        proof {
            lemma_blocks_grow(plans, 0);
            lemma_blocks_grow(plans, last as int);
            assert(plans.take(0) =~= Seq::empty());
            assert(plans[0] == imports@[0]@);
            assert(plans[last as int] == imports@[last as int]@);
            lemma_first_block(plans, last as int);
        }
        let first_address: u32 = lookups[0] + 8 * (imports[0].functions.len() as u32 + 1);
        let span: u32 = 8 * (imports[last].functions.len() as u32 + 1);
        let last_address: u32 = lookups[last] + span;
        address_rva = rva + first_address;
        address_size = last_address + span - first_address;
    }
    ImportTable { blob, directory_size: table, address_rva, address_size }
}

/// The address table of the first library starts no later than that of library `i`.
proof fn lemma_first_block(plans: Seq<ImportPlan>, i: int)
    requires
        0 <= i < plans.len(),
    ensures
        address_offset(plans, 0) <= address_offset(plans, i),
    decreases i,
{
    if i > 0 {
        lemma_first_block(plans, i - 1);
        lemma_take_next(plans, i - 1);
    }
}

} // verus!
