//! Arguments of the smaller benchmarks.

use vstd::prelude::*;

use crate::count_flags::{count_flags, flag_views, parse_counts, CountFlag, FlagWords};
use crate::text::text_views;

verus! {

/// A flag whose value is asked for by name and parsed as it is.
pub open spec fn plain_flag(name: Seq<char>) -> FlagWords {
    FlagWords {
        name,
        missing: name + " requires a value"@,
        invalid: Seq::empty(),
        with_reason: true,
        limit: usize::MAX as u64,
    }
}

fn make_plain_flag(name: &str) -> (flag: CountFlag)
    ensures
        flag@ == plain_flag(name@),
{
    let mut missing = name.to_owned();
    missing.append(" requires a value");
    let nothing = String::new();
    let flag = CountFlag::new(
        name,
        missing.as_str(),
        nothing.as_str(),
        true,
        usize::MAX as u64,
    );
    assert(flag@ =~= plain_flag(name@));
    flag
}

/// Settings of the query benchmark.
#[derive(Debug, Clone, Copy, PartialEq, Eq, Structural)]
pub struct QuerySettings {
    /// Records that are queried.
    pub records: usize,
    /// Queries of each kind.
    pub iterations: usize,
}

/// The settings that arguments of the query benchmark give.
pub open spec fn query_settings(arguments: Seq<Seq<char>>) -> Result<QuerySettings, Seq<char>> {
    match count_flags(
        seq![plain_flag("--records"@), plain_flag("--iterations"@)],
        seq![100_000u64, 100u64],
        "unknown argument: "@,
        arguments,
        0,
    ) {
        Err(text) => Err(text),
        Ok(counts) => if counts[0] == 0 || counts[1] == 0 {
            Err("records and iterations must be nonzero"@)
        } else {
            Ok(QuerySettings { records: counts[0] as usize, iterations: counts[1] as usize })
        },
    }
}

/// Reads the arguments of the query benchmark.
pub fn parse_query_settings(arguments: &Vec<String>) -> (settings: Result<QuerySettings, String>)
    ensures
        match settings {
            Ok(settings) => query_settings(text_views(arguments@)) == Ok::<
                QuerySettings,
                Seq<char>,
            >(settings),
            Err(text) => query_settings(text_views(arguments@)) == Err::<
                QuerySettings,
                Seq<char>,
            >(text@),
        },
{
    let flags = vec![make_plain_flag("--records"), make_plain_flag("--iterations")];
    let defaults: Vec<u64> = vec![100_000, 100];
    assert(flag_views(flags@) =~= seq![plain_flag("--records"@), plain_flag("--iterations"@)]);
    assert(defaults@ =~= seq![100_000u64, 100u64]);
    let counts = parse_counts(arguments, &flags, defaults, "unknown argument: ")?;
    if counts[0] == 0 || counts[1] == 0 {
        return Err("records and iterations must be nonzero".to_owned());
    }
    Ok(QuerySettings { records: counts[0] as usize, iterations: counts[1] as usize })
}

/// Settings of the locality benchmark.
#[derive(Debug, Clone, Copy, PartialEq, Eq, Structural)]
pub struct LocalitySettings {
    /// Rounds of each measurement.
    pub iterations: usize,
    /// Records that are sealed.
    pub seal_records: usize,
}

/// The settings that arguments of the locality benchmark give.
pub open spec fn locality_settings(arguments: Seq<Seq<char>>) -> Result<LocalitySettings, Seq<char>> {
    match count_flags(
        seq![plain_flag("--iterations"@), plain_flag("--seal-records"@)],
        seq![1_000_000u64, 50_000u64],
        "unknown argument: "@,
        arguments,
        0,
    ) {
        Err(text) => Err(text),
        Ok(counts) => if counts[0] == 0 || counts[1] == 0 {
            Err("benchmark iteration counts must be nonzero"@)
        } else {
            Ok(LocalitySettings { iterations: counts[0] as usize, seal_records: counts[1] as usize })
        },
    }
}

/// Reads the arguments of the locality benchmark.
pub fn parse_locality_settings(arguments: &Vec<String>) -> (settings: Result<
    LocalitySettings,
    String,
>)
    ensures
        match settings {
            Ok(settings) => locality_settings(text_views(arguments@)) == Ok::<
                LocalitySettings,
                Seq<char>,
            >(settings),
            Err(text) => locality_settings(text_views(arguments@)) == Err::<
                LocalitySettings,
                Seq<char>,
            >(text@),
        },
{
    let flags = vec![make_plain_flag("--iterations"), make_plain_flag("--seal-records")];
    let defaults: Vec<u64> = vec![1_000_000, 50_000];
    assert(flag_views(flags@) =~= seq![plain_flag("--iterations"@), plain_flag("--seal-records"@)]);
    assert(defaults@ =~= seq![1_000_000u64, 50_000u64]);
    let counts = parse_counts(arguments, &flags, defaults, "unknown argument: ")?;
    if counts[0] == 0 || counts[1] == 0 {
        return Err("benchmark iteration counts must be nonzero".to_owned());
    }
    Ok(LocalitySettings { iterations: counts[0] as usize, seal_records: counts[1] as usize })
}

/// A flag of the upload benchmark.
pub open spec fn named_flag(name: Seq<char>) -> FlagWords {
    FlagWords {
        name,
        missing: "missing value for "@ + name,
        invalid: "invalid "@ + name + ": "@,
        with_reason: true,
        limit: usize::MAX as u64,
    }
}

fn make_named_flag(name: &str) -> (flag: CountFlag)
    ensures
        flag@ == named_flag(name@),
{
    let mut missing = "missing value for ".to_owned();
    missing.append(name);
    let mut invalid = "invalid ".to_owned();
    invalid.append(name);
    invalid.append(": ");
    CountFlag::new(name, missing.as_str(), invalid.as_str(), true, usize::MAX as u64)
}

/// Settings of the upload benchmark.
#[derive(Debug, Clone, Copy, PartialEq, Eq, Structural)]
pub struct OffloadSettings {
    /// Partitions.
    pub partitions: usize,
    /// Batches of each partition.
    pub batches_per_partition: usize,
    /// Connections.
    pub connections: usize,
}

/// The settings that arguments of the upload benchmark give.
pub open spec fn offload_settings(arguments: Seq<Seq<char>>) -> Result<OffloadSettings, Seq<char>> {
    match count_flags(
        seq![
            named_flag("--partitions"@),
            named_flag("--batches-per-partition"@),
            named_flag("--connections"@),
        ],
        seq![4u64, 64u64, 4u64],
        "unknown argument "@,
        arguments,
        0,
    ) {
        Err(text) => Err(text),
        Ok(counts) => if counts[0] == 0 || counts[0] > 256 {
            Err("--partitions must be in 1..=256"@)
        } else if counts[1] == 0 || counts[2] == 0 {
            Err("--batches-per-partition and --connections must be nonzero"@)
        } else {
            Ok(
                OffloadSettings {
                    partitions: counts[0] as usize,
                    batches_per_partition: counts[1] as usize,
                    connections: counts[2] as usize,
                },
            )
        },
    }
}

/// Reads the arguments of the upload benchmark.
pub fn parse_offload_settings(arguments: &Vec<String>) -> (settings: Result<OffloadSettings, String>)
    ensures
        match settings {
            Ok(settings) => offload_settings(text_views(arguments@)) == Ok::<
                OffloadSettings,
                Seq<char>,
            >(settings),
            Err(text) => offload_settings(text_views(arguments@)) == Err::<
                OffloadSettings,
                Seq<char>,
            >(text@),
        },
{
    let flags = vec![
        make_named_flag("--partitions"),
        make_named_flag("--batches-per-partition"),
        make_named_flag("--connections"),
    ];
    let defaults: Vec<u64> = vec![4, 64, 4];
    assert(flag_views(flags@) =~= seq![
        named_flag("--partitions"@),
        named_flag("--batches-per-partition"@),
        named_flag("--connections"@),
    ]);
    assert(defaults@ =~= seq![4u64, 64u64, 4u64]);
    let counts = parse_counts(arguments, &flags, defaults, "unknown argument ")?;
    if counts[0] == 0 || counts[0] > 256 {
        return Err("--partitions must be in 1..=256".to_owned());
    }
    if counts[1] == 0 || counts[2] == 0 {
        return Err("--batches-per-partition and --connections must be nonzero".to_owned());
    }
    Ok(
        OffloadSettings {
            partitions: counts[0] as usize,
            batches_per_partition: counts[1] as usize,
            connections: counts[2] as usize,
        },
    )
}

/// A flag of the cache benchmark.
pub open spec fn bare_flag(name: Seq<char>, limit: u64) -> FlagWords {
    FlagWords {
        name,
        missing: "missing value for "@ + name,
        invalid: "invalid value for "@ + name,
        with_reason: false,
        limit,
    }
}

fn make_bare_flag(name: &str, limit: u64) -> (flag: CountFlag)
    ensures
        flag@ == bare_flag(name@, limit),
{
    let mut missing = "missing value for ".to_owned();
    missing.append(name);
    let mut invalid = "invalid value for ".to_owned();
    invalid.append(name);
    CountFlag::new(name, missing.as_str(), invalid.as_str(), false, limit)
}

/// Settings of the cache benchmark.
#[derive(Debug, Clone, Copy, PartialEq, Eq, Structural)]
pub struct TierCacheSettings {
    /// Bytes of the object.
    pub object_bytes: usize,
    /// Bytes of a cached chunk.
    pub chunk_bytes: u64,
    /// Bytes of a range.
    pub range_bytes: u64,
    /// Ranges of a read.
    pub ranges: usize,
    /// Reads.
    pub iterations: usize,
}

/// What speaks against settings of the cache benchmark.
pub open spec fn tier_cache_conflict(settings: TierCacheSettings) -> Option<Seq<char>> {
    if settings.object_bytes == 0 || settings.chunk_bytes == 0 || settings.range_bytes == 0
        || settings.ranges == 0 || settings.iterations == 0 {
        Some("all benchmark bounds must be nonzero"@)
    } else if settings.range_bytes * settings.ranges > u64::MAX {
        Some("selected byte count overflow"@)
    } else if settings.range_bytes * settings.ranges > settings.chunk_bytes
        || settings.chunk_bytes > settings.object_bytes {
        Some("selected ranges must fit one cache chunk and object"@)
    } else {
        None
    }
}

/// The settings that counts of the cache benchmark give.
pub open spec fn tier_cache_counts(counts: Seq<u64>) -> TierCacheSettings {
    TierCacheSettings {
        object_bytes: counts[0] as usize,
        chunk_bytes: counts[1],
        range_bytes: counts[2],
        ranges: counts[3] as usize,
        iterations: counts[4] as usize,
    }
}

/// The settings that arguments of the cache benchmark give.
pub open spec fn tier_cache_settings(arguments: Seq<Seq<char>>) -> Result<
    TierCacheSettings,
    Seq<char>,
> {
    match count_flags(
        seq![
            bare_flag("--object-bytes"@, usize::MAX as u64),
            bare_flag("--chunk-bytes"@, u64::MAX),
            bare_flag("--range-bytes"@, u64::MAX),
            bare_flag("--ranges"@, usize::MAX as u64),
            bare_flag("--iterations"@, usize::MAX as u64),
        ],
        seq![67_108_864u64, 4_194_304u64, 65_536u64, 64u64, 100u64],
        "unknown argument "@,
        arguments,
        0,
    ) {
        Err(text) => Err(text),
        Ok(counts) => match tier_cache_conflict(tier_cache_counts(counts)) {
            Some(text) => Err(text),
            None => Ok(tier_cache_counts(counts)),
        },
    }
}

/// Reads the arguments of the cache benchmark.
pub fn parse_tier_cache_settings(arguments: &Vec<String>) -> (settings: Result<
    TierCacheSettings,
    String,
>)
    ensures
        match settings {
            Ok(settings) => tier_cache_settings(text_views(arguments@)) == Ok::<
                TierCacheSettings,
                Seq<char>,
            >(settings),
            Err(text) => tier_cache_settings(text_views(arguments@)) == Err::<
                TierCacheSettings,
                Seq<char>,
            >(text@),
        },
{
    let flags = vec![
        make_bare_flag("--object-bytes", usize::MAX as u64),
        make_bare_flag("--chunk-bytes", u64::MAX),
        make_bare_flag("--range-bytes", u64::MAX),
        make_bare_flag("--ranges", usize::MAX as u64),
        make_bare_flag("--iterations", usize::MAX as u64),
    ];
    let defaults: Vec<u64> = vec![67_108_864, 4_194_304, 65_536, 64, 100];
    assert(flag_views(flags@) =~= seq![
        bare_flag("--object-bytes"@, usize::MAX as u64),
        bare_flag("--chunk-bytes"@, u64::MAX),
        bare_flag("--range-bytes"@, u64::MAX),
        bare_flag("--ranges"@, usize::MAX as u64),
        bare_flag("--iterations"@, usize::MAX as u64),
    ]);
    assert(defaults@ =~= seq![67_108_864u64, 4_194_304u64, 65_536u64, 64u64, 100u64]);
    let counts = parse_counts(arguments, &flags, defaults, "unknown argument ")?;
    let settings = TierCacheSettings {
        object_bytes: counts[0] as usize,
        chunk_bytes: counts[1],
        range_bytes: counts[2],
        ranges: counts[3] as usize,
        iterations: counts[4] as usize,
    };
    check_tier_cache(&settings)?;
    Ok(settings)
}

/// Checks settings of the cache benchmark.
pub fn check_tier_cache(settings: &TierCacheSettings) -> (verdict: Result<(), String>)
    ensures
        match verdict {
            Ok(_) => tier_cache_conflict(*settings) is None,
            Err(text) => tier_cache_conflict(*settings) == Some(text@),
        },
{
    if settings.object_bytes == 0 || settings.chunk_bytes == 0 || settings.range_bytes == 0
        || settings.ranges == 0 || settings.iterations == 0 {
        return Err("all benchmark bounds must be nonzero".to_owned());
    }
    match settings.range_bytes.checked_mul(settings.ranges as u64) {
        None => Err("selected byte count overflow".to_owned()),
        Some(selected) => if selected > settings.chunk_bytes || settings.chunk_bytes
            > settings.object_bytes as u64 {
            Err("selected ranges must fit one cache chunk and object".to_owned())
        } else {
            Ok(())
        },
    }
}

/// The ranges of a read: one behind the other from the start of the object.
pub fn select_ranges(settings: &TierCacheSettings) -> (ranges: Vec<(u64, u64)>)
    requires
        tier_cache_conflict(*settings) is None,
    ensures
        ranges@.len() == settings.ranges,
        forall|i: int|
            0 <= i < ranges@.len() ==> (#[trigger] ranges@[i]).0 == i * settings.range_bytes
                && ranges@[i].1 == (i + 1) * settings.range_bytes,
{
    let mut ranges: Vec<(u64, u64)> = Vec::new();
    let mut start: u64 = 0;
    while ranges.len() < settings.ranges
        invariant
            tier_cache_conflict(*settings) is None,
            ranges@.len() <= settings.ranges,
            start == ranges@.len() * settings.range_bytes,
            forall|i: int|
                0 <= i < ranges@.len() ==> (#[trigger] ranges@[i]).0 == i * settings.range_bytes
                    && ranges@[i].1 == (i + 1) * settings.range_bytes,
        decreases settings.ranges - ranges@.len(),
    {
        let ghost place = ranges@.len() as int;
        assert((place + 1) * settings.range_bytes == place * settings.range_bytes
            + settings.range_bytes && (place + 1) * settings.range_bytes <= settings.ranges
            * settings.range_bytes) by (nonlinear_arith)
            requires
                0 <= place < settings.ranges,
                settings.range_bytes >= 0,
        ;
        assert(settings.range_bytes * settings.ranges == settings.ranges * settings.range_bytes)
            by (nonlinear_arith);
        let end = start + settings.range_bytes;
        ranges.push((start, end));
        start = end;
    }
    ranges
}

/// Checks what an upload reports against what was written.
pub fn check_offload(settings: &OffloadSettings, offloaded_batches: usize, offloaded_records: u64) -> (matched:
    bool)
    ensures
        matched == (offloaded_batches == capped_product(*settings) && offloaded_records
            == capped_product(*settings)),
{
    let expected = match settings.partitions.checked_mul(settings.batches_per_partition) {
        Some(product) => product,
        None => usize::MAX,
    };
    offloaded_batches == expected && offloaded_records == expected as u64
}

/// The batches of an upload, at most the largest count.
pub open spec fn capped_product(settings: OffloadSettings) -> int {
    if settings.partitions * settings.batches_per_partition > usize::MAX {
        usize::MAX as int
    } else {
        settings.partitions * settings.batches_per_partition
    }
}

} // verus!
