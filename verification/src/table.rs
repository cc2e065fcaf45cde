use vstd::prelude::*;

verus! {

/// Triangulation table for the 256 voxel-corner configurations of a
/// marching cube. Row `c` packs the edge numbers of the surface patch for
/// configuration `c`, 4 bits per entry, low bits first; the value `0xF`
/// ends the row. Three consecutive edge numbers form one triangle.
pub const TRI_ROWS: [u64; 256] = [
    0xffffffffffffffff, 0xfffffffffffff038, 0xfffffffffffff091, 0xffffffffff938913,
    0xfffffffffffff21a, 0xffffa80a018a3a23, 0xffffffffff0a209a, 0xfffffff9a88a3a23,
    0xfffffffffffff32b, 0xffffffffff2802b8, 0xffffffffff091b32, 0xfffffff89bb92912,
    0xffffffffff1b31ab, 0xfffffffb8aa81801, 0xfffffffab99b0b30, 0xffffffffff89bb9a,
    0xfffffffffffff874, 0xffffffffff703740, 0xffffffffff874109, 0xfffffff371179749,
    0xffffffffff48721a, 0xfa373a2a741a0a40, 0xfffffff8749a0a20, 0xffff9743727929a2,
    0xffffffffff32b487, 0xfffffff0244272b7, 0xfffffff09174832b, 0xffff74b49b92b912,
    0xfffffff74831b1ab, 0xffff1a04070a7ab7, 0xffff3099ab39b487, 0xfffffff9ab9b7497,
    0xfffffffffffff945, 0xffff538584350590, 0xffffffffff410451, 0xfffffff135534384,
    0xffffffffff94521a, 0xf019438345235a25, 0xfffffff04224a45a, 0xffffa25235345384,
    0xffffffffffb32945, 0xf50205952b4585b8, 0xfffffff2b3041451, 0xffff458b82852512,
    0xfffffff945ab1b31, 0xffff458b8a85a901, 0xffff0b3ab5b05045, 0xfffffffab8a845a4,
    0xffffffffff859875, 0xfffffff753350590, 0xfffffff517718108, 0xffffffffff371175,
    0xfffffffa21985875, 0xffff37523525a019, 0xffff08775a07a20a, 0xfffffff37535a23a,
    0xfffffff32b758598, 0xffff72b029279759, 0xffff087751071b32, 0xfffffff751712b72,
    0xffffb31ab1987975, 0xfffffff01975ab7a, 0xfb0a0b3a05087507, 0xffffffffffa75b7a,
    0xfffffffffffffa56, 0xffffffffff803a56, 0xffffffffff1096a5, 0xf61316a638569689,
    0xffffffffff256215, 0xf815180856382862, 0xfffffff206605095, 0xffff382625285895,
    0xffffffffffb3256a, 0xf5b8b56580a52502, 0xfffffff109b32a56, 0xffffb896b96952a1,
    0xfffffff15335b56b, 0xffff180156816b86, 0xffff956096b0630b, 0xfffffffb89b956b5,
    0xffffffffff487a56, 0xfa404a5a036a7a37, 0xfffffff48710956a, 0xffff137a17a76954,
    0xfffffff487625215, 0xffff014154372276, 0xffff206096695487, 0xfffffff954376236,
    0xfffffffb324876a5, 0xffff40254252a76b, 0xffff109b32874a56, 0xfffffff95412a76b,
    0xffff6b3315635874, 0xfffffffb76154014, 0xf4870b3b06096956, 0xffffffffffb76495,
    0xffffffffff96a946, 0xf34643836a0393a9, 0xfffffff4600616a1, 0xffff43846a34a13a,
    0xfffffff624429219, 0xffff382624284019, 0xffffffffff204246, 0xfffffff462423843,
    0xfffffffb32a96946, 0xffff84b46b02992a, 0xffffa10046a0632b, 0xfffffff12a46b84b,
    0xffff6b3319639469, 0xfffffff190b846b4, 0xfffffff04606b30b, 0xffffffffff4b86b4,
    0xfffffff98aa86876, 0xffff039a96936376, 0xffff76a87a18a081, 0xfffffff137176a16,
    0xffff921987297627, 0xfffffff901623763, 0xfffffff620608768, 0xffffffffff637236,
    0xffff98a87aa76b32, 0xfffffff76b02a90a, 0xfb3281018a87a76a, 0xffffffffff12ab76,
    0xf8696879616b3163, 0xffffffffff019b76, 0xffff06336b608768, 0xfffffffffffffb76,
    0xfffffffffffff7b6, 0xffff60363b068678, 0xffffffffff1097b6, 0xf689867691b63613,
    0xffffffffff21a7b6, 0xf3b218081a78a67a, 0xfffffff67b20a09a, 0xffff89a78a7a63b2,
    0xffffffffff367326, 0xfffffff260068678, 0xfffffff091263673, 0xffff291897927267,
    0xfffffff3177161a6, 0xffff67a78a81a801, 0xffff3099a6396736, 0xfffffff89a8a6786,
    0xffffffffffb48b64, 0xfffffff40660b03b, 0xfffffff9108b4b64, 0xffffb63139369649,
    0xfffffff21a64b48b, 0xffff1a04060a623b, 0xffff48b64b20929a, 0xfffffff3b29a6496,
    0xfffffff642243483, 0xffffffffff024426, 0xffff832264824109, 0xfffffff264249129,
    0xffff34864a43a31a, 0xfffffff640601a61, 0xf43634863a309a39, 0xffffffffff69a496,
    0xffffffffff7b6945, 0xf847b030b6906596, 0xfffffff7b6514104, 0xffffb63135365784,
    0xfffffff59421a67b, 0xffff0193b27845a6, 0xffff04245225a67b, 0xfffffff3b2847a65,
    0xfffffff594736326, 0xffff026906965847, 0xffff104514732726, 0xfffffff847265125,
    0xffff3171a77a6594, 0xfffffff84701965a, 0xf4a0a450a3a673a7, 0xffffffffff8475a6,
    0xfffffff8b99b5b65, 0xffff5969060b603b, 0xffff8105161868b6, 0xfffffff51353b65b,
    0xffff8b9b69965a21, 0xfffffff0193b25a6, 0xfb585b68505a2052, 0xffffffffff3b265a,
    0xffff832265825985, 0xfffffff026065905, 0xf185810586832682, 0xffffffffff526125,
    0xf16361a368659869, 0xffffffffff019a65, 0xffffffffff0835a6, 0xfffffffffffff5a6,
    0xffffffffff7a57ba, 0xf0bab030a5807057, 0xfffffff10957a7ba, 0xffff3b1ba1897795,
    0xfffffff5711727b2, 0xffff8075717013b2, 0xffff27b209729579, 0xfffffff23b578958,
    0xfffffff73553a32a, 0xffff80757a70a02a, 0xffff73532552a109, 0xfffffff2a1895785,
    0xffffffffff731715, 0xfffffff157178018, 0xfffffff573530950, 0xffffffffff589785,
    0xfffffffba88a4a54, 0xffffb03ba50b5405, 0xffff5488ba58a091, 0xfffffff495ba13b1,
    0xffff5488b2582152, 0xfffffffb23401541, 0xf05250925b548b58, 0xffffffffff3b2495,
    0xffff2a5325435834, 0xfffffff40242a54a, 0xf1093484353252a5, 0xffffffffff49512a,
    0xfffffff315354834, 0xffffffffff140541, 0xffff358854530950, 0xfffffffffffff495,
    0xfffffffa9bb97947, 0xffff039a9b93b847, 0xffffa10047a07ba7, 0xfffffff47813ba1b,
    0xffff47b94b29b192, 0xfffffff90147823b, 0xfffffff204247b27, 0xffffffffff23b847,
    0xffff794732972a92, 0xfffffff784a902a0, 0xf3a7a327a4a104a0, 0xffffffffff84712a,
    0xfffffff731719479, 0xffffffffff784019, 0xffffffffff073470, 0xfffffffffffff784,
    0xffffffffff98b9ba, 0xfffffffba9b903b0, 0xfffffff8ba8a1081, 0xffffffffffb13a1b,
    0xfffffff98b9b2192, 0xffffffffff9013b2, 0xffffffffff820b28, 0xfffffffffffff23b,
    0xfffffffa98a832a3, 0xffffffffffa0290a, 0xffff8a00a1a832a3, 0xfffffffffffff12a,
    0xffffffffff398193, 0xfffffffffffff901, 0xfffffffffffff308, 0xffffffffffffffff,

];

/// Entry `j` of the triangulation row for configuration `code`.
pub open spec fn tri_entry(code: int, j: int) -> u64 {
    (TRI_ROWS[code] >> ((4 * j) as u64)) & 0xF
}

/// Whether entries `j`, `j + 1` and `j + 2` form a complete triangle:
/// all three name one of the twelve cube edges.
pub open spec fn triple_ok(code: int, j: int) -> bool {
    tri_entry(code, j) < 12 && tri_entry(code, j + 1) < 12 && tri_entry(code, j + 2) < 12
}

/// Number of complete triangles at or after entry `j` of the row,
/// stopping at the first incomplete or ended triple.
pub open spec fn triples_from(code: int, j: int) -> int
    decreases 16 - j when j >= 0
{
    if j + 3 > 16 {
        0
    } else if triple_ok(code, j) {
        1 + triples_from(code, j + 3)
    } else {
        0
    }
}

/// Number of edge entries that the extraction consumes from the row for
/// `code`: the entries of its leading complete triangles.
pub open spec fn row_len(code: int) -> int {
    3 * triples_from(code, 0)
}

proof fn lemma_triples_from_bounds(code: int, j: int)
    requires
        0 <= j <= 16,
    ensures
        0 <= triples_from(code, j),
        j + 3 * triples_from(code, j) <= 16,
    decreases 16 - j,
{
    if j + 3 <= 16 && triple_ok(code, j) {
        lemma_triples_from_bounds(code, j + 3);
    }
}

/// The triangle count of a row suffix is never negative.
pub proof fn lemma_triples_nonneg(code: int, j: int)
    requires
        0 <= j <= 16,
    ensures
        triples_from(code, j) >= 0,
{
    lemma_triples_from_bounds(code, j);
}

/// A row never yields more than five triangles.
pub proof fn lemma_row_len_bounds(code: int)
    ensures
        0 <= row_len(code) <= 15,
        row_len(code) % 3 == 0,
{
    lemma_triples_from_bounds(code, 0);
}

proof fn lemma_row_entry_from(code: int, j: int, i: int)
    requires
        0 <= j,
        j + 3 <= 16,
        0 <= i < 3 * triples_from(code, j),
    ensures
        tri_entry(code, j + i) < 12,
    decreases 16 - j,
{
    if i < 3 {
    } else {
        lemma_triples_from_bounds(code, j);
        lemma_row_entry_from(code, j + 3, i - 3);
    }
}

/// Every entry that the extraction consumes names one of the twelve cube
/// edges.
pub proof fn lemma_row_entry(code: int, i: int)
    requires
        0 <= i < row_len(code),
    ensures
        tri_entry(code, i) < 12,
{
    lemma_row_entry_from(code, 0, i);
}

/// The rows for the all-inside and the all-outside configuration are
/// empty: a voxel without a sign change yields no geometry.
pub proof fn lemma_trivial_rows()
    ensures
        row_len(0) == 0,
        row_len(255) == 0,
{
    assert(TRI_ROWS[0] == 0xffffffffffffffffu64);
    assert(TRI_ROWS[255] == 0xffffffffffffffffu64);
    assert(tri_entry(0, 0) == 0xF) by (bit_vector)
        requires
            TRI_ROWS[0int] == 0xffffffffffffffffu64,
    ;
    assert(tri_entry(255, 0) == 0xF) by (bit_vector)
        requires
            TRI_ROWS[255int] == 0xffffffffffffffffu64,
    ;
}

} // verus!
