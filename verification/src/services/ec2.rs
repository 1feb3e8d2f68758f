//! Instances.
use vstd::prelude::*;

use crate::cli::{Ec2TypesArgs, Ec2TypesSort, Globals, StubArgs};
use crate::client;
use crate::error::{told, AwlError, Failure};
use crate::json::{self, Fields, Json, JsonTree};
use crate::measure::{self, Measure};
use crate::number;
use crate::output::{self, Output, Shown};
use crate::services::common;
use crate::text;

verus! {

/// An instance type of the catalog.
#[derive(Debug)]
pub struct Ec2TypeRecord {
    pub instance_type: String,
    pub family: Option<String>,
    pub pretty_name: Option<String>,
    pub vcpu: Option<u32>,
    pub memory_gib: Option<Measure>,
    pub arch: Vec<String>,
    pub generation: Option<String>,
    pub network_performance: Option<String>,
    pub processor: Option<String>,
    pub clock_speed_ghz: Option<String>,
    pub gpu: Option<Measure>,
    pub gpu_model: Option<String>,
    pub gpu_memory_gib: Option<Measure>,
    pub fpga: Option<Measure>,
    pub ebs_optimized: Option<bool>,
    pub ebs_baseline_bandwidth_mbps: Option<Measure>,
    pub ebs_baseline_iops: Option<u64>,
    pub ebs_max_bandwidth_mbps: Option<Measure>,
    pub ebs_max_iops: Option<u64>,
    pub enhanced_networking: Option<bool>,
    pub vpc_max_enis: Option<u32>,
    pub vpc_ips_per_eni: Option<u32>,
    pub storage_devices: Option<u32>,
    pub storage_size_gb: Option<Measure>,
    pub storage_ssd: Option<bool>,
    pub storage_nvme: Option<bool>,
    /// The prices by region.
    pub linux_on_demand: Vec<(String, Measure)>,
}

/// The lower-case form of a text holds another.
pub open spec fn holds_casefold(value: Seq<char>, query: Seq<char>) -> bool {
    text::find_text(text::lowercase(value), query) is Some
}

/// The lower-case form of a text, where there is one, holds another.
pub open spec fn optional_holds(value: Option<Seq<char>>, query: Seq<char>) -> bool {
    value matches Some(value) && holds_casefold(value, query)
}

/// Whether the lower-case form of a text holds another.
pub fn contains_casefold(value: &str, query: &str) -> (r: bool)
    ensures
        r == holds_casefold(value@, query@),
{
    text::contains(value.to_lowercase().as_str(), query)
}

/// Whether the lower-case form of a text, where there is one, holds another.
pub fn optional_contains_casefold(value: Option<&str>, query: &str) -> (r: bool)
    ensures
        r == optional_holds(value.deep_view(), query@),
{
    match value {
        Some(value) => contains_casefold(value, query),
        None => false,
    }
}

/// Whether the lower-case form of a text, where there is one, holds another.
fn string_contains(value: &Option<String>, query: &str) -> (r: bool)
    ensures
        r == optional_holds(value.deep_view(), query@),
{
    match value {
        Some(value) => optional_contains_casefold(Some(value.as_str()), query),
        None => optional_contains_casefold(None, query),
    }
}

/// The bits of a measure, or of zero where there is none.
pub open spec fn measure_or_zero(m: Option<Measure>) -> u64 {
    match m {
        Some(m) => m.value(),
        None => 0,
    }
}

/// The largest finite number.
pub open spec fn largest() -> u64 {
    0x7fef_ffff_ffff_ffff
}

/// A type has the text that is asked for in its name, family, display name or
/// processor.
pub open spec fn has_query(instance: Ec2TypeRecord, query: Seq<char>) -> bool {
    let q = text::lowercase(query);
    ||| holds_casefold(instance.instance_type@, q)
    ||| optional_holds(instance.family.deep_view(), q)
    ||| optional_holds(instance.pretty_name.deep_view(), q)
    ||| optional_holds(instance.processor.deep_view(), q)
}

/// A type has an architecture, by its lower-case name.
pub open spec fn has_arch(instance: Ec2TypeRecord, arch: Seq<char>) -> bool {
    exists|i: int|
        0 <= i < instance.arch@.len() && text::lowercase((#[trigger] instance.arch@[i])@)
            == text::lowercase(arch)
}

/// A type meets all that is asked for. One without a size counts as the smallest
/// against a lower bound, and as the largest against an upper one.
pub open spec fn type_matches(instance: Ec2TypeRecord, args: Ec2TypesArgs) -> bool {
    &&& args.query matches Some(query) ==> has_query(instance, query@)
    &&& args.arch matches Some(arch) ==> has_arch(instance, arch@)
    &&& args.family matches Some(family) ==> optional_holds(
        instance.family.deep_view(),
        text::lowercase(family@),
    )
    &&& args.current ==> instance.generation.deep_view() == Some("current"@)
    &&& args.gpu ==> measure::less(0, measure_or_zero(instance.gpu))
    &&& args.min_vcpu matches Some(min) ==> min <= (match instance.vcpu {
        Some(n) => n,
        None => 0,
    })
    &&& args.max_vcpu matches Some(max) ==> (match instance.vcpu {
        Some(n) => n,
        None => u32::MAX,
    }) <= max
    &&& args.min_memory matches Some(min) ==> !measure::less(
        measure_or_zero(instance.memory_gib),
        min,
    )
    &&& args.max_memory matches Some(max) ==> !measure::less(
        max,
        match instance.memory_gib {
            Some(m) => m.value(),
            None => largest(),
        },
    )
}

/// The bits of a measure, or of another number where there is none.
fn bits_or(m: &Option<Measure>, other: u64) -> (r: u64)
    requires
        measure::is_finite(other),
    ensures
        r == (match m {
            Some(m) => m.value(),
            None => other,
        }),
        measure::is_finite(r),
{
    match m {
        Some(m) => m.bits(),
        None => other,
    }
}

/// Whether a type has an architecture.
fn arch_matches(instance: &Ec2TypeRecord, arch: &str) -> (r: bool)
    ensures
        r == has_arch(*instance, arch@),
{
    let wanted = arch.to_lowercase();
    let mut i: usize = 0;
    while i < instance.arch.len()
        invariant
            wanted@ == text::lowercase(arch@),
            i <= instance.arch.len(),
            forall|j: int|
                0 <= j < i ==> text::lowercase((#[trigger] instance.arch@[j])@) != wanted@,
        decreases instance.arch.len() - i,
    {
        if text::same(instance.arch[i].as_str().to_lowercase().as_str(), wanted.as_str()) {
            return true;
        }
        i += 1;
    }
    false
}

/// Whether a type meets all that is asked for.
pub fn matches_type_filters(instance: &Ec2TypeRecord, args: &Ec2TypesArgs) -> (r: bool)
    ensures
        r == type_matches(*instance, *args),
{
    if let Some(query) = &args.query {
        let query = query.as_str().to_lowercase();
        let q = query.as_str();
        if !contains_casefold(instance.instance_type.as_str(), q) && !string_contains(
            &instance.family,
            q,
        ) && !string_contains(&instance.pretty_name, q) && !string_contains(
            &instance.processor,
            q,
        ) {
            return false;
        }
    }
    if let Some(arch) = &args.arch {
        if !arch_matches(instance, arch.as_str()) {
            return false;
        }
    }
    if let Some(family) = &args.family {
        let family = family.as_str().to_lowercase();
        if !string_contains(&instance.family, family.as_str()) {
            return false;
        }
    }
    if args.current {
        let current = match &instance.generation {
            Some(generation) => text::same(generation.as_str(), "current"),
            None => false,
        };
        if !current {
            return false;
        }
    }
    if args.gpu && !measure::is_less(0, bits_or(&instance.gpu, 0)) {
        return false;
    }
    if let Some(min) = args.min_vcpu {
        let vcpu: u32 = match instance.vcpu {
            Some(n) => n,
            None => 0,
        };
        if vcpu < min {
            return false;
        }
    }
    if let Some(max) = args.max_vcpu {
        let vcpu: u32 = match instance.vcpu {
            Some(n) => n,
            None => u32::MAX,
        };
        if vcpu > max {
            return false;
        }
    }
    if let Some(min) = args.min_memory {
        if measure::is_less(bits_or(&instance.memory_gib, 0), min) {
            return false;
        }
    }
    if let Some(max) = args.max_memory {
        if measure::is_less(max, bits_or(&instance.memory_gib, 0x7fef_ffff_ffff_ffff)) {
            return false;
        }
    }
    true
}

/// The price of a type in a region, where the catalog has one.
pub open spec fn price_from(prices: Seq<(String, Measure)>, region: Seq<char>, i: int) -> Option<
    Measure,
>
    decreases prices.len() - i,
{
    if i < 0 || i >= prices.len() {
        None
    } else if prices[i].0@ == region {
        Some(prices[i].1)
    } else {
        price_from(prices, region, i + 1)
    }
}

/// The price of a type in a region, where the catalog has one.
pub open spec fn price_in(instance: Ec2TypeRecord, region: Seq<char>) -> Option<Measure> {
    price_from(instance.linux_on_demand@, region, 0)
}

/// The price of a type in a region, where the catalog has one.
fn find_price<'a>(instance: &'a Ec2TypeRecord, region: &str) -> (r: Option<&'a Measure>)
    ensures
        match r {
            Some(price) => price_in(*instance, region@) == Some(*price),
            None => price_in(*instance, region@) is None,
        },
{
    let prices = &instance.linux_on_demand;
    let mut i: usize = 0;
    while i < prices.len()
        invariant
            *prices == instance.linux_on_demand,
            i <= prices.len(),
            price_in(*instance, region@) == price_from(prices@, region@, i as int),
        decreases prices.len() - i,
    {
        if text::same(prices[i].0.as_str(), region) {
            return Some(&prices[i].1);
        }
        i += 1;
    }
    None
}

/// A type stands before another by what the rows are sorted by alone. A type with
/// a price stands before one without.
pub open spec fn key_less(
    a: Ec2TypeRecord,
    b: Ec2TypeRecord,
    sort: Ec2TypesSort,
    region: Seq<char>,
) -> bool {
    match sort {
        Ec2TypesSort::Type => false,
        Ec2TypesSort::Vcpu => (match a.vcpu {
            Some(n) => n,
            None => 0,
        }) < (match b.vcpu {
            Some(n) => n,
            None => 0,
        }),
        Ec2TypesSort::Memory => measure::rank(measure_or_zero(a.memory_gib)) < measure::rank(
            measure_or_zero(b.memory_gib),
        ),
        Ec2TypesSort::Price => match (price_in(a, region), price_in(b, region)) {
            (Some(x), Some(y)) => measure::rank(x.value()) < measure::rank(y.value()),
            (Some(_), None) => true,
            _ => false,
        },
    }
}

/// A type stands before another: by what the rows are sorted by, and then by
/// name.
pub open spec fn type_less(
    a: Ec2TypeRecord,
    b: Ec2TypeRecord,
    sort: Ec2TypesSort,
    region: Seq<char>,
) -> bool {
    key_less(a, b, sort, region) || (!key_less(b, a, sort, region) && text::precedes(
        a.instance_type@,
        b.instance_type@,
    ))
}

/// Whether a type stands before another by what the rows are sorted by alone.
fn is_key_less(
    a: &Ec2TypeRecord,
    b: &Ec2TypeRecord,
    sort: Ec2TypesSort,
    region: &str,
) -> (r: bool)
    ensures
        r == key_less(*a, *b, sort, region@),
{
    match sort {
        Ec2TypesSort::Type => false,
        Ec2TypesSort::Vcpu => {
            let x: u32 = match a.vcpu {
                Some(n) => n,
                None => 0,
            };
            let y: u32 = match b.vcpu {
                Some(n) => n,
                None => 0,
            };
            x < y
        },
        Ec2TypesSort::Memory => measure::is_less(
            bits_or(&a.memory_gib, 0),
            bits_or(&b.memory_gib, 0),
        ),
        Ec2TypesSort::Price => match (find_price(a, region), find_price(b, region)) {
            (Some(x), Some(y)) => measure::is_less(x.bits(), y.bits()),
            (Some(_), None) => true,
            _ => false,
        },
    }
}

/// Whether a type stands before another.
fn is_type_less(
    a: &Ec2TypeRecord,
    b: &Ec2TypeRecord,
    sort: Ec2TypesSort,
    region: &str,
) -> (r: bool)
    ensures
        r == type_less(*a, *b, sort, region@),
{
    is_key_less(a, b, sort, region) || (!is_key_less(b, a, sort, region) && text::less(
        a.instance_type.as_str(),
        b.instance_type.as_str(),
    ))
}

/// An entry of the catalog comes before another in the list: by its type, and
/// where neither type stands before the other, by its place in the catalog.
pub open spec fn comes_before(
    catalog: Seq<Ec2TypeRecord>,
    i: int,
    j: int,
    sort: Ec2TypesSort,
    region: Seq<char>,
) -> bool {
    type_less(catalog[i], catalog[j], sort, region) || (!type_less(
        catalog[j],
        catalog[i],
        sort,
        region,
    ) && i < j)
}

/// Places in the catalog, each with its entry before the next.
pub open spec fn in_order(
    catalog: Seq<Ec2TypeRecord>,
    places: Seq<usize>,
    sort: Ec2TypesSort,
    region: Seq<char>,
) -> bool {
    forall|a: int, b: int|
        0 <= a < b < places.len() ==> comes_before(
            catalog,
            #[trigger] places[a] as int,
            #[trigger] places[b] as int,
            sort,
            region,
        )
}

/// The order by what the rows are sorted by is strict and has no gaps.
proof fn lemma_key_order(
    a: Ec2TypeRecord,
    b: Ec2TypeRecord,
    c: Ec2TypeRecord,
    sort: Ec2TypesSort,
    region: Seq<char>,
)
    ensures
        !(key_less(a, b, sort, region) && key_less(b, a, sort, region)),
        key_less(a, b, sort, region) && key_less(b, c, sort, region) ==> key_less(
            a,
            c,
            sort,
            region,
        ),
        key_less(a, c, sort, region) ==> key_less(a, b, sort, region) || key_less(
            b,
            c,
            sort,
            region,
        ),
{
}

/// The order of types is strict and has no gaps.
proof fn lemma_type_order(
    a: Ec2TypeRecord,
    b: Ec2TypeRecord,
    c: Ec2TypeRecord,
    sort: Ec2TypesSort,
    region: Seq<char>,
)
    ensures
        !(type_less(a, b, sort, region) && type_less(b, a, sort, region)),
        type_less(a, b, sort, region) && type_less(b, c, sort, region) ==> type_less(
            a,
            c,
            sort,
            region,
        ),
        type_less(a, c, sort, region) ==> type_less(a, b, sort, region) || type_less(
            b,
            c,
            sort,
            region,
        ),
{
    lemma_key_order(a, b, c, sort, region);
    lemma_key_order(a, c, b, sort, region);
    lemma_key_order(b, a, c, sort, region);
    lemma_key_order(b, c, a, sort, region);
    lemma_key_order(c, a, b, sort, region);
    lemma_key_order(c, b, a, sort, region);
    let x = a.instance_type@;
    let y = b.instance_type@;
    let z = c.instance_type@;
    text::lemma_precedes_total(x, y);
    text::lemma_precedes_total(y, z);
    text::lemma_precedes_total(x, z);
    if text::precedes(x, y) && text::precedes(y, z) {
        text::lemma_precedes_transitive(x, y, z);
    }
    if text::precedes(x, z) && text::precedes(z, y) {
        text::lemma_precedes_transitive(x, z, y);
    }
    if text::precedes(y, x) && text::precedes(x, z) {
        text::lemma_precedes_transitive(y, x, z);
    }
}

/// The order of the list is strict and transitive.
proof fn lemma_list_order(
    catalog: Seq<Ec2TypeRecord>,
    i: int,
    j: int,
    k: int,
    sort: Ec2TypesSort,
    region: Seq<char>,
)
    ensures
        !(comes_before(catalog, i, j, sort, region) && comes_before(catalog, j, i, sort, region)),
        comes_before(catalog, i, j, sort, region) && comes_before(catalog, j, k, sort, region)
            ==> comes_before(catalog, i, k, sort, region),
{
    lemma_type_order(catalog[i], catalog[j], catalog[k], sort, region);
    lemma_type_order(catalog[i], catalog[k], catalog[j], sort, region);
    lemma_type_order(catalog[j], catalog[i], catalog[k], sort, region);
    lemma_type_order(catalog[k], catalog[j], catalog[i], sort, region);
}

/// The places are a list of the catalog's entries, each named once.
pub open spec fn ascending(places: Seq<usize>) -> bool {
    forall|a: int, b: int|
        0 <= a < b < places.len() ==> #[trigger] places[a] < #[trigger] places[b]
}

/// Puts a place in its place: after those whose entries come before, and before
/// those whose entries its own comes before.
proof fn lemma_insert_place(
    catalog: Seq<Ec2TypeRecord>,
    places: Seq<usize>,
    x: usize,
    k: int,
    sort: Ec2TypesSort,
    region: Seq<char>,
)
    requires
        in_order(catalog, places, sort, region),
        0 <= k <= places.len(),
        k > 0 ==> comes_before(catalog, places[k - 1] as int, x as int, sort, region),
        forall|m: int|
            k <= m < places.len() ==> comes_before(
                catalog,
                x as int,
                (#[trigger] places[m]) as int,
                sort,
                region,
            ),
    ensures
        in_order(catalog, places.insert(k, x), sort, region),
{
    let after = places.insert(k, x);
    assert forall|a: int, b: int| 0 <= a < b < after.len() implies comes_before(
        catalog,
        #[trigger] after[a] as int,
        #[trigger] after[b] as int,
        sort,
        region,
    ) by {
        if a < k && b < k {
            assert(comes_before(catalog, places[a] as int, places[b] as int, sort, region));
        } else if a < k && b == k {
            if a < k - 1 {
                assert(comes_before(catalog, places[a] as int, places[k - 1] as int, sort, region));
                lemma_list_order(
                    catalog,
                    places[a] as int,
                    places[k - 1] as int,
                    x as int,
                    sort,
                    region,
                );
            }
        } else if a < k {
            assert(comes_before(catalog, places[a] as int, places[b - 1] as int, sort, region));
        } else if a == k {
            assert(comes_before(catalog, x as int, places[b - 1] as int, sort, region));
        } else {
            assert(comes_before(catalog, places[a - 1] as int, places[b - 1] as int, sort, region));
        }
    }
}

/// Inserting a place adds it to the set of places.
proof fn lemma_insert_set(places: Seq<usize>, k: int, x: usize)
    requires
        0 <= k <= places.len(),
    ensures
        places.insert(k, x).to_set() == places.to_set().insert(x),
{
    let after = places.insert(k, x);
    assert forall|y: usize| places.to_set().insert(x).contains(y) implies after.to_set().contains(
        y,
    ) by {
        if y == x {
            assert(after[k] == y);
        } else {
            let i = choose|i: int| 0 <= i < places.len() && places[i] == y;
            if i < k {
                assert(after[i] == y);
            } else {
                assert(after[i + 1] == y);
            }
        }
    }
    assert forall|y: usize| after.to_set().contains(y) implies places.to_set().insert(x).contains(
        y,
    ) by {
        let i = choose|i: int| 0 <= i < after.len() && after[i] == y;
        if i < k {
            assert(places[i] == y);
        } else if i > k {
            assert(places[i - 1] == y);
        }
    }
    assert(after.to_set() =~= places.to_set().insert(x));
}

/// The places in the order of the list.
fn sort_types(
    catalog: &Vec<Ec2TypeRecord>,
    places: &Vec<usize>,
    sort: Ec2TypesSort,
    region: &str,
) -> (r: Vec<usize>)
    requires
        ascending(places@),
        forall|i: int| 0 <= i < places@.len() ==> #[trigger] places@[i] < catalog@.len(),
    ensures
        in_order(catalog@, r@, sort, region@),
        r@.to_set() == places@.to_set(),
{
    let mut out: Vec<usize> = Vec::new();
    let mut i: usize = 0;
    assert(places@.take(0).to_set() =~= Set::empty());
    assert(out@.to_set() =~= Set::empty());
    while i < places.len()
        invariant
            ascending(places@),
            forall|j: int| 0 <= j < places@.len() ==> #[trigger] places@[j] < catalog@.len(),
            i <= places.len(),
            in_order(catalog@, out@, sort, region@),
            out@.to_set() == places@.take(i as int).to_set(),
        decreases places.len() - i,
    {
        let x = places[i];
        assert forall|m: int| 0 <= m < out@.len() implies #[trigger] out@[m] < x && out@[m]
            < catalog@.len() by {
            assert(out@.to_set().contains(out@[m]));
            let j = choose|j: int| 0 <= j < i && places@.take(i as int)[j] == out@[m];
            assert(places@[j] < places@[i as int]);
        }
        let mut k: usize = out.len();
        while k > 0 && is_type_less(&catalog[x], &catalog[out[k - 1]], sort, region)
            invariant
                x < catalog@.len(),
                k <= out@.len(),
                forall|m: int| 0 <= m < out@.len() ==> #[trigger] out@[m] < catalog@.len(),
                forall|m: int|
                    k <= m < out@.len() ==> type_less(
                        catalog@[x as int],
                        catalog@[(#[trigger] out@[m]) as int],
                        sort,
                        region@,
                    ),
            decreases k,
        {
            k -= 1;
        }
        proof {
            lemma_insert_place(catalog@, out@, x, k as int, sort, region@);
            lemma_insert_set(out@, k as int, x);
            assert(places@.take(i + 1) =~= places@.take(i as int).insert(i as int, x));
            lemma_insert_set(places@.take(i as int), i as int, x);
        }
        out.insert(k, x);
        i += 1;
    }
    assert(places@.take(i as int) =~= places@);
    out
}

/// The places of the entries that meet what is asked for.
fn matching_places(catalog: &Vec<Ec2TypeRecord>, args: &Ec2TypesArgs) -> (r: Vec<usize>)
    ensures
        ascending(r@),
        forall|i: int| 0 <= i < r@.len() ==> #[trigger] r@[i] < catalog@.len(),
        forall|i: usize|
            #[trigger] r@.to_set().contains(i) <==> i < catalog@.len() && type_matches(
                catalog@[i as int],
                *args,
            ),
{
    let mut out: Vec<usize> = Vec::new();
    let mut i: usize = 0;
    while i < catalog.len()
        invariant
            i <= catalog.len(),
            ascending(out@),
            forall|k: int| 0 <= k < out@.len() ==> #[trigger] out@[k] < i,
            forall|j: usize|
                #[trigger] out@.to_set().contains(j) <==> j < i && type_matches(
                    catalog@[j as int],
                    *args,
                ),
        decreases catalog.len() - i,
    {
        if matches_type_filters(&catalog[i], args) {
            let ghost before = out@;
            out.push(i);
            proof {
                assert(out@ =~= before.insert(before.len() as int, i));
                lemma_insert_set(before, before.len() as int, i);
            }
        }
        i += 1;
    }
    out
}

/// The rows of the list, by their places in the catalog: those that meet what is
/// asked for, each once and in order.
pub open spec fn arranged(
    catalog: Seq<Ec2TypeRecord>,
    args: Ec2TypesArgs,
    region: Seq<char>,
    places: Seq<usize>,
) -> bool {
    &&& in_order(catalog, places, args.sort, region)
    &&& forall|i: usize|
        #[trigger] places.to_set().contains(i) <==> i < catalog.len() && type_matches(
            catalog[i as int],
            args,
        )
}

/// There is one list: two arrangements of a catalog are the same.
pub proof fn law_arrangement_is_unique(
    catalog: Seq<Ec2TypeRecord>,
    args: Ec2TypesArgs,
    region: Seq<char>,
    a: Seq<usize>,
    b: Seq<usize>,
)
    requires
        arranged(catalog, args, region, a),
        arranged(catalog, args, region, b),
    ensures
        a == b,
{
    assert(a.to_set() =~= b.to_set());
    lemma_order_unique(catalog, args.sort, region, a, b);
}

proof fn lemma_order_unique(
    catalog: Seq<Ec2TypeRecord>,
    sort: Ec2TypesSort,
    region: Seq<char>,
    a: Seq<usize>,
    b: Seq<usize>,
)
    requires
        in_order(catalog, a, sort, region),
        in_order(catalog, b, sort, region),
        a.to_set() =~= b.to_set(),
    ensures
        a == b,
    decreases a.len(),
{
    if a.len() == 0 {
        if b.len() > 0 {
            assert(b.to_set().contains(b[0]));
            assert(a.to_set().contains(b[0]));
        }
        assert(a =~= b);
    } else {
        assert(a.to_set().contains(a.last()));
        assert(b.to_set().contains(a.last()));
        assert(b.len() > 0);
        assert(b.to_set().contains(b.last()));
        let i = choose|i: int| 0 <= i < b.len() && b[i] == a.last();
        let j = choose|j: int| 0 <= j < a.len() && a[j] == b.last();
        if a.last() != b.last() {
            assert(comes_before(catalog, b[i] as int, b[b.len() - 1] as int, sort, region));
            assert(comes_before(catalog, a[j] as int, a[a.len() - 1] as int, sort, region));
            lemma_list_order(catalog, a.last() as int, b.last() as int, 0, sort, region);
        }
        let x = a.drop_last();
        let y = b.drop_last();
        assert(in_order(catalog, x, sort, region));
        assert(in_order(catalog, y, sort, region));
        assert forall|t: usize| x.to_set().contains(t) implies y.to_set().contains(t) by {
            lemma_shorter_list(catalog, sort, region, a, b, t);
        }
        assert forall|t: usize| y.to_set().contains(t) implies x.to_set().contains(t) by {
            lemma_shorter_list(catalog, sort, region, b, a, t);
        }
        assert(x.to_set() =~= y.to_set());
        lemma_order_unique(catalog, sort, region, x, y);
        assert(a =~= x.push(a.last()));
        assert(b =~= y.push(b.last()));
    }
}

proof fn lemma_shorter_list(
    catalog: Seq<Ec2TypeRecord>,
    sort: Ec2TypesSort,
    region: Seq<char>,
    a: Seq<usize>,
    b: Seq<usize>,
    t: usize,
)
    requires
        a.len() > 0,
        b.len() > 0,
        in_order(catalog, a, sort, region),
        a.to_set() =~= b.to_set(),
        a.last() == b.last(),
        a.drop_last().to_set().contains(t),
    ensures
        b.drop_last().to_set().contains(t),
{
    let i = choose|i: int| 0 <= i < a.drop_last().len() && a.drop_last()[i] == t;
    assert(a[i] == t);
    assert(comes_before(catalog, a[i] as int, a[a.len() - 1] as int, sort, region));
    lemma_list_order(catalog, t as int, t as int, t as int, sort, region);
    assert(a.to_set().contains(t));
    assert(b.to_set().contains(t));
    let j = choose|j: int| 0 <= j < b.len() && b[j] == t;
    assert(j < b.len() - 1);
    assert(b.drop_last()[j] == t);
}

/// Fields with one more, where it has a value.
#[verifier::opaque]
pub open spec fn with_field(
    fields: Map<Seq<char>, JsonTree>,
    name: Seq<char>,
    value: Option<JsonTree>,
) -> Map<Seq<char>, JsonTree> {
    match value {
        Some(tree) => fields.insert(name, tree),
        None => fields,
    }
}

/// A text in a row.
pub open spec fn text_cell(value: Option<String>) -> Option<JsonTree> {
    match value {
        Some(s) => Some(JsonTree::Text(s@)),
        None => None,
    }
}

/// A truth value in a row.
pub open spec fn bool_cell(value: Option<bool>) -> Option<JsonTree> {
    match value {
        Some(b) => Some(JsonTree::Bool(b)),
        None => None,
    }
}

/// A count in a row.
pub open spec fn u32_cell(value: Option<u32>) -> Option<JsonTree> {
    match value {
        Some(n) => Some(json::whole(n as int)),
        None => None,
    }
}

/// A count in a row.
pub open spec fn u64_cell(value: Option<u64>) -> Option<JsonTree> {
    match value {
        Some(n) => Some(json::whole(n as int)),
        None => None,
    }
}

/// A measure in a row: a whole number where it is one that an `i64` comes near to,
/// and otherwise the number that it is.
pub open spec fn measure_tree(m: Measure) -> JsonTree {
    match measure::nearest_i64(m.value()) {
        Some(n) => json::whole(n),
        None => m.number_tree(),
    }
}

/// A measure in a row.
pub open spec fn measure_cell(value: Option<Measure>) -> Option<JsonTree> {
    match value {
        Some(m) => Some(measure_tree(m)),
        None => None,
    }
}

/// The prices by region in a row: of two for one region the later.
pub open spec fn price_fields(prices: Seq<(String, Measure)>) -> Map<Seq<char>, JsonTree>
    decreases prices.len(),
{
    if prices.len() == 0 {
        Map::empty()
    } else {
        price_fields(prices.drop_last()).insert(prices.last().0@, prices.last().1.number_tree())
    }
}

/// The parts of the text that sums up the storage of a type.
pub open spec fn storage_parts(instance: Ec2TypeRecord, devices: u32) -> Seq<Seq<char>> {
    let count = seq![number::decimal(devices as nat) + " x"@];
    let size = match instance.storage_size_gb {
        Some(m) => seq![m.words(), "GB"@],
        None => seq!["unknown-size"@],
    };
    let nvme = if instance.storage_nvme == Some(true) {
        seq!["NVMe"@]
    } else {
        Seq::empty()
    };
    let ssd = if instance.storage_ssd == Some(true) {
        seq!["SSD"@]
    } else {
        Seq::empty()
    };
    count + size + nvme + ssd
}

/// The text that sums up the storage of a type.
pub open spec fn storage_text(instance: Ec2TypeRecord) -> Seq<char> {
    match instance.storage_devices {
        None => "EBS only"@,
        Some(devices) => text::joined(storage_parts(instance, devices), " "@),
    }
}

/// The text that sums up the storage of a type.
pub fn storage_summary(instance: &Ec2TypeRecord) -> (r: String)
    ensures
        r@ == storage_text(*instance),
{
    let devices = match instance.storage_devices {
        Some(devices) => devices,
        None => {
            return "EBS only".to_owned();
        },
    };
    let mut parts: Vec<String> = Vec::new();
    parts.push(number::u64_text(devices as u64).concat(" x"));
    match &instance.storage_size_gb {
        Some(size) => {
            parts.push(size.text().to_owned());
            parts.push("GB".to_owned());
        },
        None => {
            parts.push("unknown-size".to_owned());
        },
    }
    if instance.storage_nvme == Some(true) {
        parts.push("NVMe".to_owned());
    }
    if instance.storage_ssd == Some(true) {
        parts.push("SSD".to_owned());
    }
    assert(parts.deep_view() =~= storage_parts(*instance, devices));
    text::join(parts.as_slice(), " ")
}

/// Adds a text to a row, where there is one.
fn insert_optional_string(row: &mut Fields, key: &str, value: &Option<String>)
    ensures
        final(row).contents() == with_field(old(row).contents(), key@, text_cell(*value)),
{
    proof {
        reveal(with_field);
    }
    if let Some(value) = value {
        row.insert(key, Json::text(value.as_str()));
    }
}

/// Adds a truth value to a row, where there is one.
fn insert_optional_bool(row: &mut Fields, key: &str, value: Option<bool>)
    ensures
        final(row).contents() == with_field(old(row).contents(), key@, bool_cell(value)),
{
    proof {
        reveal(with_field);
    }
    if let Some(value) = value {
        row.insert(key, Json::Bool(value));
    }
}

/// Adds a count to a row, where there is one.
fn insert_optional_u32(row: &mut Fields, key: &str, value: Option<u32>)
    ensures
        final(row).contents() == with_field(old(row).contents(), key@, u32_cell(value)),
{
    proof {
        reveal(with_field);
    }
    if let Some(value) = value {
        row.insert(key, Json::unsigned(value as u64));
    }
}

/// Adds a count to a row, where there is one.
fn insert_optional_u64(row: &mut Fields, key: &str, value: Option<u64>)
    ensures
        final(row).contents() == with_field(old(row).contents(), key@, u64_cell(value)),
{
    proof {
        reveal(with_field);
    }
    if let Some(value) = value {
        row.insert(key, Json::unsigned(value));
    }
}

/// A measure in a row.
fn measure_json(m: &Measure) -> (r: Json)
    ensures
        r.tree() == measure_tree(*m),
{
    match measure::whole_i64(m.bits()) {
        Some(n) => Json::signed(n),
        None => m.json(),
    }
}

/// Adds a measure to a row, where there is one.
fn insert_optional_measure(row: &mut Fields, key: &str, value: &Option<Measure>)
    ensures
        final(row).contents() == with_field(old(row).contents(), key@, measure_cell(*value)),
{
    proof {
        reveal(with_field);
    }
    if let Some(value) = value {
        row.insert(key, measure_json(value));
    }
}

/// The fields that every row has, as far as the catalog has them.
pub open spec fn short_fields(instance: Ec2TypeRecord) -> Map<Seq<char>, JsonTree> {
    let a = map!["instance_type"@ => JsonTree::Text(instance.instance_type@)];
    let b = with_field(a, "family"@, text_cell(instance.family));
    let c = with_field(b, "vcpu"@, u32_cell(instance.vcpu));
    let d = with_field(c, "memory_gib"@, measure_cell(instance.memory_gib));
    let e = d.insert(
        "arch"@,
        JsonTree::Text(text::joined(instance.arch.deep_view(), ","@)),
    );
    let f = with_field(e, "generation"@, text_cell(instance.generation));
    let g = with_field(f, "network"@, text_cell(instance.network_performance));
    let h = with_field(g, "gpu"@, measure_cell(instance.gpu));
    h.insert("storage"@, JsonTree::Text(storage_text(instance)))
}

/// Fields with those of a wide row, as far as the catalog has them.
pub open spec fn wide_fields(
    fields: Map<Seq<char>, JsonTree>,
    instance: Ec2TypeRecord,
) -> Map<Seq<char>, JsonTree> {
    let a = with_field(fields, "pretty_name"@, text_cell(instance.pretty_name));
    let b = with_field(a, "processor"@, text_cell(instance.processor));
    let c = with_field(b, "clock_speed_ghz"@, text_cell(instance.clock_speed_ghz));
    let d = with_field(c, "gpu_model"@, text_cell(instance.gpu_model));
    let e = with_field(d, "gpu_memory_gib"@, measure_cell(instance.gpu_memory_gib));
    let f = with_field(e, "fpga"@, measure_cell(instance.fpga));
    let g = with_field(f, "ebs_optimized"@, bool_cell(instance.ebs_optimized));
    let h = with_field(
        g,
        "ebs_baseline_bandwidth_mbps"@,
        measure_cell(instance.ebs_baseline_bandwidth_mbps),
    );
    let i = with_field(h, "ebs_baseline_iops"@, u64_cell(instance.ebs_baseline_iops));
    let j = with_field(
        i,
        "ebs_max_bandwidth_mbps"@,
        measure_cell(instance.ebs_max_bandwidth_mbps),
    );
    let k = with_field(j, "ebs_max_iops"@, u64_cell(instance.ebs_max_iops));
    let l = with_field(k, "enhanced_networking"@, bool_cell(instance.enhanced_networking));
    let m = with_field(l, "vpc_max_enis"@, u32_cell(instance.vpc_max_enis));
    with_field(m, "vpc_ips_per_eni"@, u32_cell(instance.vpc_ips_per_eni))
}

/// The row of a type: with more fields where a wide one is asked for, with the
/// price in a region unless that is not wanted, and with all prices where they are
/// asked for.
pub open spec fn type_tree(
    instance: Ec2TypeRecord,
    args: Ec2TypesArgs,
    region: Seq<char>,
) -> JsonTree {
    let a = short_fields(instance);
    let b = if args.wide {
        wide_fields(a, instance)
    } else {
        a
    };
    let c = if args.no_price {
        b
    } else {
        with_field(
            b.insert("price_region"@, JsonTree::Text(region)),
            "linux_ondemand_usd_per_hour"@,
            measure_cell(price_in(instance, region)),
        )
    };
    let d = if args.all_prices {
        c.insert("linux_on_demand"@, JsonTree::Object(price_fields(instance.linux_on_demand@)))
    } else {
        c
    };
    JsonTree::Object(d)
}

/// The row of a type.
pub fn type_row(instance: &Ec2TypeRecord, args: &Ec2TypesArgs, region: &str) -> (r: Json)
    ensures
        r.tree() == type_tree(*instance, *args, region@),
{
    proof {
        reveal(with_field);
    }
    let mut row = Fields::new();
    row.insert("instance_type", Json::text(instance.instance_type.as_str()));
    insert_optional_string(&mut row, "family", &instance.family);
    insert_optional_u32(&mut row, "vcpu", instance.vcpu);
    insert_optional_measure(&mut row, "memory_gib", &instance.memory_gib);
    row.insert("arch", Json::Text(text::join(instance.arch.as_slice(), ",")));
    insert_optional_string(&mut row, "generation", &instance.generation);
    insert_optional_string(&mut row, "network", &instance.network_performance);
    insert_optional_measure(&mut row, "gpu", &instance.gpu);
    row.insert("storage", Json::Text(storage_summary(instance)));
    assert(row.contents() == short_fields(*instance));
    if args.wide {
        add_wide(&mut row, instance);
    }
    if !args.no_price {
        row.insert("price_region", Json::text(region));
        if let Some(price) = find_price(instance, region) {
            row.insert("linux_ondemand_usd_per_hour", measure_json(price));
        }
    }
    if args.all_prices {
        row.insert("linux_on_demand", Json::Object(all_prices(instance)));
    }
    Json::Object(row)
}

/// Adds the fields of a wide row.
fn add_wide(row: &mut Fields, instance: &Ec2TypeRecord)
    ensures
        final(row).contents() == wide_fields(old(row).contents(), *instance),
{
    insert_optional_string(row, "pretty_name", &instance.pretty_name);
    insert_optional_string(row, "processor", &instance.processor);
    insert_optional_string(row, "clock_speed_ghz", &instance.clock_speed_ghz);
    insert_optional_string(row, "gpu_model", &instance.gpu_model);
    insert_optional_measure(row, "gpu_memory_gib", &instance.gpu_memory_gib);
    insert_optional_measure(row, "fpga", &instance.fpga);
    insert_optional_bool(row, "ebs_optimized", instance.ebs_optimized);
    insert_optional_measure(
        row,
        "ebs_baseline_bandwidth_mbps",
        &instance.ebs_baseline_bandwidth_mbps,
    );
    insert_optional_u64(row, "ebs_baseline_iops", instance.ebs_baseline_iops);
    insert_optional_measure(row, "ebs_max_bandwidth_mbps", &instance.ebs_max_bandwidth_mbps);
    insert_optional_u64(row, "ebs_max_iops", instance.ebs_max_iops);
    insert_optional_bool(row, "enhanced_networking", instance.enhanced_networking);
    insert_optional_u32(row, "vpc_max_enis", instance.vpc_max_enis);
    insert_optional_u32(row, "vpc_ips_per_eni", instance.vpc_ips_per_eni);
}

/// The prices by region in a row.
fn all_prices(instance: &Ec2TypeRecord) -> (r: Fields)
    ensures
        r.contents() == price_fields(instance.linux_on_demand@),
{
    let prices = &instance.linux_on_demand;
    let mut fields = Fields::new();
    let mut i: usize = 0;
    assert(prices@.take(0) =~= Seq::empty());
    while i < prices.len()
        invariant
            i <= prices.len(),
            fields.contents() == price_fields(prices@.take(i as int)),
        decreases prices.len() - i,
    {
        fields.insert(prices[i].0.as_str(), prices[i].1.json());
        assert(prices@.take(i + 1).drop_last() =~= prices@.take(i as int));
        i += 1;
    }
    assert(prices@.take(i as int) =~= prices@);
    fields
}

/// The region of the price column: that of its option, or else of the command
/// line, or else of `AWS_DEFAULT_REGION`, or else `us-east-1`.
pub open spec fn region_for_price(
    args: Ec2TypesArgs,
    global: Option<Seq<char>>,
    variable: Option<Seq<char>>,
) -> Seq<char> {
    client::or_text(
        client::first_of(args.price_region.deep_view(), client::first_of(global, variable)),
        "us-east-1"@,
    )
}

/// The region of the price column; the value of `AWS_DEFAULT_REGION` is given.
pub fn price_region(globals: &Globals, args: &Ec2TypesArgs, variable: Option<String>) -> (r: String)
    ensures
        r@ == region_for_price(*args, globals.region.deep_view(), variable.deep_view()),
{
    client::text_or(
        client::first_text(
            client::copy_text(&args.price_region),
            client::first_text(client::copy_text(&globals.region), variable),
        ),
        "us-east-1",
    )
}

/// How many rows are shown of those that there are.
pub open spec fn shown_count(limit: Option<usize>, count: nat) -> int {
    match limit {
        Some(n) => if n < count {
            n as int
        } else {
            count as int
        },
        None => count as int,
    }
}

/// What is shown lists the types of a catalog: a row for each of the first of
/// those that match, in order.
pub open spec fn lists_types(
    catalog: Seq<Ec2TypeRecord>,
    args: Ec2TypesArgs,
    region: Seq<char>,
    shown: Shown,
) -> bool {
    exists|places: Seq<usize>|
        #[trigger] arranged(catalog, args, region, places) && shown == Shown::Many(
            places.take(shown_count(args.limit, places.len())).map_values(
                |i: usize| type_tree(catalog[i as int], args, region),
            ),
        )
}

/// Prices are not to be shown and left out at once. This is known before the
/// catalog is read.
pub fn check_prices(args: &Ec2TypesArgs) -> (r: Result<(), AwlError>)
    ensures
        match r {
            Ok(_) => !(args.no_price && args.all_prices),
            Err(error) => {
                &&& args.no_price && args.all_prices
                &&& error@ == Failure::Usage(
                    "--no-price and --all-prices cannot be used together"@,
                )
            },
        },
{
    if args.no_price && args.all_prices {
        Err(AwlError::usage("--no-price and --all-prices cannot be used together"))
    } else {
        Ok(())
    }
}

/// The rows of `ec2 types`; the value of `AWS_DEFAULT_REGION` is given.
pub fn types(
    globals: &Globals,
    args: &Ec2TypesArgs,
    variable: Option<String>,
    catalog: &Vec<Ec2TypeRecord>,
) -> (r: Result<Output, AwlError>)
    ensures
        match r {
            Ok(output) => {
                let region = region_for_price(
                    *args,
                    globals.region.deep_view(),
                    variable.deep_view(),
                );
                &&& !(args.no_price && args.all_prices)
                &&& lists_types(catalog@, *args, region, output@)
            },
            Err(error) => {
                &&& args.no_price && args.all_prices
                &&& error@ == Failure::Usage(
                    "--no-price and --all-prices cannot be used together"@,
                )
            },
        },
{
    match check_prices(args) {
        Ok(_) => {},
        Err(error) => return Err(error),
    }
    let region = price_region(globals, args, variable);
    let matching = matching_places(catalog, args);
    let places = sort_types(catalog, &matching, args.sort, region.as_str());
    proof {
        assert(arranged(catalog@, *args, region@, places@));
        assert forall|i: int| 0 <= i < places@.len() implies #[trigger] places@[i]
            < catalog@.len() by {
            assert(places@.to_set().contains(places@[i]));
        }
    }
    let count: usize = match args.limit {
        Some(n) => if n < places.len() {
            n
        } else {
            places.len()
        },
        None => places.len(),
    };
    let mut rows: Vec<Json> = Vec::new();
    let mut i: usize = 0;
    while i < count
        invariant
            i <= count <= places@.len(),
            forall|k: int| 0 <= k < places@.len() ==> #[trigger] places@[k] < catalog@.len(),
            rows@.len() == i,
            forall|k: int|
                0 <= k < i ==> (#[trigger] rows@[k]).tree() == type_tree(
                    catalog@[places@[k] as int],
                    *args,
                    region@,
                ),
        decreases count - i,
    {
        rows.push(type_row(&catalog[places[i]], args, region.as_str()));
        i += 1;
    }
    assert(json::trees(rows@) =~= places@.take(count as int).map_values(
        |i: usize| type_tree(catalog@[i as int], *args, region@),
    ));
    Ok(Output::Many(rows))
}

/// The name of a field that a row has, whether prices are shown or not.
spec fn names_a_column(name: Seq<char>) -> bool {
    ||| name == "instance_type"@
    ||| name == "family"@
    ||| name == "vcpu"@
    ||| name == "memory_gib"@
    ||| name == "arch"@
    ||| name == "generation"@
    ||| name == "network"@
    ||| name == "gpu"@
    ||| name == "storage"@
    ||| name == "pretty_name"@
    ||| name == "processor"@
    ||| name == "clock_speed_ghz"@
    ||| name == "gpu_model"@
    ||| name == "gpu_memory_gib"@
    ||| name == "fpga"@
    ||| name == "ebs_optimized"@
    ||| name == "ebs_baseline_bandwidth_mbps"@
    ||| name == "ebs_baseline_iops"@
    ||| name == "ebs_max_bandwidth_mbps"@
    ||| name == "ebs_max_iops"@
    ||| name == "enhanced_networking"@
    ||| name == "vpc_max_enis"@
    ||| name == "vpc_ips_per_eni"@
}

/// A row has no other fields but for its prices.
proof fn lemma_columns(instance: Ec2TypeRecord, name: Seq<char>)
    requires
        !names_a_column(name),
    ensures
        !short_fields(instance).contains_key(name),
        !wide_fields(short_fields(instance), instance).contains_key(name),
{
    reveal(with_field);
}

/// The fields of the prices are no others.
proof fn lemma_price_columns()
    ensures
        !names_a_column("price_region"@),
        !names_a_column("linux_ondemand_usd_per_hour"@),
        !names_a_column("linux_on_demand"@),
{
    reveal_strlit("instance_type");
    reveal_strlit("family");
    reveal_strlit("vcpu");
    reveal_strlit("memory_gib");
    reveal_strlit("arch");
    reveal_strlit("generation");
    reveal_strlit("network");
    reveal_strlit("gpu");
    reveal_strlit("storage");
    reveal_strlit("pretty_name");
    reveal_strlit("processor");
    reveal_strlit("clock_speed_ghz");
    reveal_strlit("gpu_model");
    reveal_strlit("gpu_memory_gib");
    reveal_strlit("fpga");
    reveal_strlit("ebs_optimized");
    reveal_strlit("ebs_baseline_bandwidth_mbps");
    reveal_strlit("ebs_baseline_iops");
    reveal_strlit("ebs_max_bandwidth_mbps");
    reveal_strlit("ebs_max_iops");
    reveal_strlit("enhanced_networking");
    reveal_strlit("vpc_max_enis");
    reveal_strlit("vpc_ips_per_eni");
    reveal_strlit("price_region");
    reveal_strlit("linux_ondemand_usd_per_hour");
    reveal_strlit("linux_on_demand");
    assert("instance_type"@.len() == 13);
    assert("family"@.len() == 6);
    assert("vcpu"@.len() == 4);
    assert("memory_gib"@.len() == 10);
    assert("arch"@.len() == 4);
    assert("generation"@.len() == 10);
    assert("network"@.len() == 7);
    assert("gpu"@.len() == 3);
    assert("storage"@.len() == 7);
    assert("pretty_name"@.len() == 11);
    assert("processor"@.len() == 9);
    assert("clock_speed_ghz"@.len() == 15);
    assert("gpu_model"@.len() == 9);
    assert("gpu_memory_gib"@.len() == 14);
    assert("fpga"@.len() == 4);
    assert("ebs_optimized"@.len() == 13);
    assert("ebs_baseline_bandwidth_mbps"@.len() == 27);
    assert("ebs_baseline_iops"@.len() == 17);
    assert("ebs_max_bandwidth_mbps"@.len() == 22);
    assert("ebs_max_iops"@.len() == 12);
    assert("enhanced_networking"@.len() == 19);
    assert("vpc_max_enis"@.len() == 12);
    assert("vpc_ips_per_eni"@.len() == 15);
    assert("price_region"@.len() == 12);
    assert("linux_ondemand_usd_per_hour"@.len() == 27);
    assert("linux_on_demand"@.len() == 15);
    assert("clock_speed_ghz"@[0] != "linux_on_demand"@[0]);
    assert("ebs_baseline_bandwidth_mbps"@[0] != "linux_ondemand_usd_per_hour"@[0]);
    assert("ebs_max_iops"@[0] != "price_region"@[0]);
    assert("vpc_max_enis"@[0] != "price_region"@[0]);
    assert("vpc_ips_per_eni"@[0] != "linux_on_demand"@[0]);
}

/// A row without prices has no field for them.
pub proof fn law_no_price_shows_none(
    instance: Ec2TypeRecord,
    args: Ec2TypesArgs,
    region: Seq<char>,
)
    requires
        args.no_price,
        !args.all_prices,
    ensures
        type_tree(instance, args, region) is Object,
        !type_tree(instance, args, region)->Object_0.contains_key("price_region"@),
        !type_tree(instance, args, region)->Object_0.contains_key("linux_ondemand_usd_per_hour"@),
        !type_tree(instance, args, region)->Object_0.contains_key("linux_on_demand"@),
{
    lemma_price_columns();
    lemma_columns(instance, "price_region"@);
    lemma_columns(instance, "linux_ondemand_usd_per_hour"@);
    lemma_columns(instance, "linux_on_demand"@);
}

/// Whether the service is only to check a request, and not to carry it out.
pub open spec fn only_checks(args: Seq<Seq<char>>) -> bool {
    args.contains("--dry-run"@) || args.contains("--dryrun"@)
}

/// Whether the service is only to check a request.
pub fn dry_run(args: &StubArgs) -> (r: bool)
    ensures
        r == only_checks(args.args.deep_view()),
{
    common::has_flag(args.args.as_slice(), "--dry-run") || common::has_flag(
        args.args.as_slice(),
        "--dryrun",
    )
}

/// The instances that a command names; there must be one.
pub open spec fn instances_named(args: Seq<Seq<char>>) -> Result<Seq<Seq<char>>, Failure> {
    let ids = common::positionals(args);
    if ids.len() == 0 {
        Err(Failure::Usage("missing required argument <instance-id>"@))
    } else {
        Ok(ids)
    }
}

/// The instances that a command names; there must be one.
pub fn required_instance_ids(args: &StubArgs) -> (r: Result<Vec<String>, AwlError>)
    ensures
        match r {
            Ok(ids) => instances_named(args.args.deep_view()) == Ok::<Seq<Seq<char>>, Failure>(
                ids.deep_view(),
            ),
            Err(error) => instances_named(args.args.deep_view()) == Err::<
                Seq<Seq<char>>,
                Failure,
            >(error@),
        },
{
    let ids = common::positional(args.args.as_slice());
    assert(ids@.len() == ids.deep_view().len());
    if ids.len() == 0 {
        Err(AwlError::usage("missing required argument <instance-id>"))
    } else {
        Ok(ids)
    }
}

/// A request about things that are named by ids: all of them where none is named.
#[derive(Debug)]
pub struct IdsPlan {
    pub ids: Vec<String>,
    pub dry_run: bool,
}

/// What `ls` and `ami` ask for.
pub fn describe_plan(args: &StubArgs) -> (r: IdsPlan)
    ensures
        r.ids.deep_view() == common::positionals(args.args.deep_view()),
        r.dry_run == only_checks(args.args.deep_view()),
{
    IdsPlan { ids: common::positional(args.args.as_slice()), dry_run: dry_run(args) }
}

/// A change of the state of instances. `force` is for `stop` alone.
#[derive(Debug)]
pub struct StatePlan {
    pub ids: Vec<String>,
    pub dry_run: bool,
    pub force: bool,
}

/// Which instances the arguments change, and how.
pub open spec fn change_asked(args: Seq<Seq<char>>, r: Result<StatePlan, AwlError>) -> bool {
    match r {
        Ok(plan) => {
            &&& instances_named(args) == Ok::<Seq<Seq<char>>, Failure>(
                plan.ids.deep_view(),
            )
            &&& plan.dry_run == only_checks(args)
            &&& plan.force == args.contains("--force"@)
        },
        Err(error) => instances_named(args) == Err::<
            Seq<Seq<char>>,
            Failure,
        >(error@),
    }
}

/// What `start`, `stop` and `reboot` ask for.
pub fn state_plan(args: &StubArgs) -> (r: Result<StatePlan, AwlError>)
    ensures
        change_asked(args.args.deep_view(), r),
{
    match required_instance_ids(args) {
        Err(error) => Err(error),
        Ok(ids) => Ok(
            StatePlan {
                ids,
                dry_run: dry_run(args),
                force: common::has_flag(args.args.as_slice(), "--force"),
            },
        ),
    }
}

/// The value of the first tag at or after `i` with a key.
pub open spec fn tag_from(
    tags: Seq<(Option<Seq<char>>, Option<Seq<char>>)>,
    key: Seq<char>,
    i: int,
) -> Option<
    Seq<char>,
>
    decreases tags.len() - i,
{
    if i < 0 || i >= tags.len() {
        None
    } else if tags[i].0 == Some(key) {
        tags[i].1
    } else {
        tag_from(tags, key, i + 1)
    }
}

/// The value of the first tag with a key.
pub fn tag_value<'a>(tags: &'a Vec<(Option<String>, Option<String>)>, key: &str) -> (r: Option<
    &'a str,
>)
    ensures
        r.deep_view() == tag_from(tags.deep_view(), key@, 0),
{
    let mut i: usize = 0;
    while i < tags.len()
        invariant
            i <= tags.len(),
            tag_from(tags.deep_view(), key@, 0) == tag_from(tags.deep_view(), key@, i as int),
        decreases tags.len() - i,
    {
        if let Some(name) = &tags[i].0 {
            if text::same(name.as_str(), key) {
                return match &tags[i].1 {
                    Some(value) => Some(value.as_str()),
                    None => None,
                };
            }
        }
        i += 1;
    }
    None
}

/// An instance as the service describes it.
#[derive(Debug)]
pub struct InstanceInfo {
    pub instance_id: Option<String>,
    pub tags: Vec<(Option<String>, Option<String>)>,
    pub state: Option<String>,
    pub instance_type: Option<String>,
    pub private_ip: Option<String>,
    pub public_ip: Option<String>,
    pub az: Option<String>,
    pub image_id: Option<String>,
    pub key_name: Option<String>,
    pub launch_time: Option<String>,
}

/// The record of an instance.
pub open spec fn instance_tree(info: InstanceInfo) -> JsonTree {
    JsonTree::Object(
        map![
            "instance_id"@ => json::optional_text(info.instance_id.deep_view()),
            "name"@ => json::optional_text(tag_from(info.tags.deep_view(), "Name"@, 0)),
            "state"@ => json::optional_text(info.state.deep_view()),
            "instance_type"@ => json::optional_text(info.instance_type.deep_view()),
            "private_ip"@ => json::optional_text(info.private_ip.deep_view()),
            "public_ip"@ => json::optional_text(info.public_ip.deep_view()),
            "az"@ => json::optional_text(info.az.deep_view()),
            "image_id"@ => json::optional_text(info.image_id.deep_view()),
            "key_name"@ => json::optional_text(info.key_name.deep_view()),
            "launch_time"@ => json::optional_text(info.launch_time.deep_view()),
        ],
    )
}

/// The record of an instance.
pub fn instance_row(info: &InstanceInfo) -> (r: Json)
    ensures
        r.tree() == instance_tree(*info),
{
    let mut row = Fields::new();
    row.insert("instance_id", Json::optional_string(&info.instance_id));
    row.insert("name", Json::optional_text(tag_value(&info.tags, "Name")));
    row.insert("state", Json::optional_string(&info.state));
    row.insert("instance_type", Json::optional_string(&info.instance_type));
    row.insert("private_ip", Json::optional_string(&info.private_ip));
    row.insert("public_ip", Json::optional_string(&info.public_ip));
    row.insert("az", Json::optional_string(&info.az));
    row.insert("image_id", Json::optional_string(&info.image_id));
    row.insert("key_name", Json::optional_string(&info.key_name));
    row.insert("launch_time", Json::optional_string(&info.launch_time));
    Json::Object(row)
}

/// The records of the instances.
pub open spec fn instances_shown(instances: Seq<InstanceInfo>) -> Shown {
    Shown::Many(instances.map_values(|info: InstanceInfo| instance_tree(info)))
}

/// What is shown of instances.
pub fn instance_rows(instances: &Vec<InstanceInfo>) -> (r: Output)
    ensures
        r@ == instances_shown(instances@),
{
    let mut rows: Vec<Json> = Vec::new();
    let mut i: usize = 0;
    while i < instances.len()
        invariant
            i <= instances.len(),
            rows@.len() == i,
            forall|j: int|
                0 <= j < i ==> (#[trigger] rows@[j]).tree() == instance_tree(instances@[j]),
        decreases instances.len() - i,
    {
        rows.push(instance_row(&instances[i]));
        i += 1;
    }
    assert(json::trees(rows@) =~= instances@.map_values(
        |info: InstanceInfo| instance_tree(info),
    ));
    Output::Many(rows)
}

/// A change of an instance's state.
#[derive(Debug)]
pub struct StateChange {
    pub instance_id: Option<String>,
    pub previous_state: Option<String>,
    pub current_state: Option<String>,
}

/// The record of a change of an instance's state.
pub open spec fn change_tree(change: StateChange) -> JsonTree {
    JsonTree::Object(
        map![
            "instance_id"@ => json::optional_text(change.instance_id.deep_view()),
            "previous_state"@ => json::optional_text(change.previous_state.deep_view()),
            "current_state"@ => json::optional_text(change.current_state.deep_view()),
        ],
    )
}

/// The records of the changes.
pub open spec fn changes_shown(changes: Seq<StateChange>) -> Shown {
    Shown::Many(changes.map_values(|change: StateChange| change_tree(change)))
}

/// What is shown of changes of instances' states.
pub fn state_changes(changes: &Vec<StateChange>) -> (r: Output)
    ensures
        r@ == changes_shown(changes@),
{
    let mut rows: Vec<Json> = Vec::new();
    let mut i: usize = 0;
    while i < changes.len()
        invariant
            i <= changes.len(),
            rows@.len() == i,
            forall|j: int| 0 <= j < i ==> (#[trigger] rows@[j]).tree() == change_tree(changes@[j]),
        decreases changes.len() - i,
    {
        let mut row = Fields::new();
        row.insert("instance_id", Json::optional_string(&changes[i].instance_id));
        row.insert("previous_state", Json::optional_string(&changes[i].previous_state));
        row.insert("current_state", Json::optional_string(&changes[i].current_state));
        rows.push(Json::Object(row));
        i += 1;
    }
    assert(json::trees(rows@) =~= changes@.map_values(|change: StateChange| change_tree(change)));
    Output::Many(rows)
}

/// The record of a reboot.
pub open spec fn reboot_tree(id: Seq<char>) -> JsonTree {
    JsonTree::Object(
        map!["instance_id"@ => JsonTree::Text(id), "action"@ => JsonTree::Text("reboot"@)],
    )
}

/// The records of the reboots.
pub open spec fn reboots_shown(ids: Seq<Seq<char>>) -> Shown {
    Shown::Many(ids.map_values(|id: Seq<char>| reboot_tree(id)))
}

/// What is shown of reboots.
pub fn reboot_rows(ids: &Vec<String>) -> (r: Output)
    ensures
        r@ == reboots_shown(ids.deep_view()),
{
    let mut rows: Vec<Json> = Vec::new();
    let mut i: usize = 0;
    while i < ids.len()
        invariant
            i <= ids.len(),
            rows@.len() == i,
            forall|j: int| 0 <= j < i ==> (#[trigger] rows@[j]).tree() == reboot_tree(ids@[j]@),
        decreases ids.len() - i,
    {
        let mut row = Fields::new();
        row.insert("instance_id", Json::text(ids[i].as_str()));
        row.insert("action", Json::text("reboot"));
        rows.push(Json::Object(row));
        i += 1;
    }
    assert(json::trees(rows@) =~= ids.deep_view().map_values(|id: Seq<char>| reboot_tree(id)));
    Output::Many(rows)
}

/// The instance that `console` and `ssh` are about.
pub fn instance_arg(args: &StubArgs) -> (r: Result<String, AwlError>)
    ensures
        told(r) == common::required_at(
            common::positionals(args.args.deep_view()),
            0,
            "instance-id"@,
        ),
{
    let words = common::positional(args.args.as_slice());
    common::required(words.as_slice(), 0, "instance-id")
}

/// The record of what an instance wrote to its console.
pub open spec fn console_tree(
    instance_id: Option<Seq<char>>,
    timestamp: Option<Seq<char>>,
    output: Option<Seq<char>>,
) -> JsonTree {
    JsonTree::Object(
        map![
            "instance_id"@ => json::optional_text(instance_id),
            "timestamp"@ => json::optional_text(timestamp),
            "output"@ => json::optional_text(output),
        ],
    )
}

/// What is shown of an instance's console.
pub fn console_row(
    instance_id: Option<&str>,
    timestamp: Option<&str>,
    output: Option<&str>,
) -> (r: Output)
    ensures
        r@ == Shown::One(console_tree(
                instance_id.deep_view(),
                timestamp.deep_view(),
                output.deep_view(),
            )),
{
    let mut row = Fields::new();
    row.insert("instance_id", Json::optional_text(instance_id));
    row.insert("timestamp", Json::optional_text(timestamp));
    row.insert("output", Json::optional_text(output));
    Output::One(Json::Object(row))
}

/// The session that the service has started.
pub open spec fn session_tree(
    session_id: Option<Seq<char>>,
    token: Option<Seq<char>>,
    stream_url: Option<Seq<char>>,
) -> JsonTree {
    JsonTree::Object(
        map![
            "SessionId"@ => json::optional_text(session_id),
            "TokenValue"@ => json::optional_text(token),
            "StreamUrl"@ => json::optional_text(stream_url),
        ],
    )
}

/// The session that the service has started.
#[derive(Debug)]
pub struct Session {
    pub session_id: Option<String>,
    pub token: Option<String>,
    pub stream_url: Option<String>,
}

/// The region of a session: that of the command line, or else of `AWS_REGION`, or
/// else of `AWS_DEFAULT_REGION`, or else `us-east-1`.
pub open spec fn session_region(
    global: Option<Seq<char>>,
    variable: Option<Seq<char>>,
    default_variable: Option<Seq<char>>,
) -> Seq<char> {
    client::or_text(
        client::first_of(global, client::first_of(variable, default_variable)),
        "us-east-1"@,
    )
}

/// The words with which a session with an instance is opened.
pub open spec fn session_words(
    session: Session,
    region: Seq<char>,
    profile: Option<Seq<char>>,
    instance_id: Seq<char>,
) -> Seq<Seq<char>> {
    seq![
        json::json_text(
            session_tree(
                session.session_id.deep_view(),
                session.token.deep_view(),
                session.stream_url.deep_view(),
            ),
        ),
        region,
        "StartSession"@,
        client::or_text(profile, Seq::empty()),
        json::json_text(JsonTree::Object(map!["Target"@ => JsonTree::Text(instance_id)])),
        "https://ssm."@ + region + ".amazonaws.com"@,
    ]
}

/// The arguments with which the session plugin is run; the values of `AWS_REGION`
/// and `AWS_DEFAULT_REGION` are given.
pub fn ssh_args(
    globals: &Globals,
    instance_id: &str,
    session: &Session,
    variable: Option<String>,
    default_variable: Option<String>,
) -> (r: Vec<String>)
    ensures
        r.deep_view() == session_words(
            *session,
            session_region(
                globals.region.deep_view(),
                variable.deep_view(),
                default_variable.deep_view(),
            ),
            globals.profile.deep_view(),
            instance_id@,
        ),
{
    let mut row = Fields::new();
    row.insert("SessionId", Json::optional_string(&session.session_id));
    row.insert("TokenValue", Json::optional_string(&session.token));
    row.insert("StreamUrl", Json::optional_string(&session.stream_url));
    let region = client::text_or(
        client::first_text(
            client::copy_text(&globals.region),
            client::first_text(variable, default_variable),
        ),
        "us-east-1",
    );
    proof {
        reveal_strlit("");
        assert(""@ =~= Seq::<char>::empty());
    }
    let profile = client::text_or(client::copy_text(&globals.profile), "");
    let mut target = Fields::new();
    target.insert("Target", Json::text(instance_id));
    let endpoint = "https://ssm.".to_owned().concat(region.as_str()).concat(".amazonaws.com");
    let mut words: Vec<String> = Vec::new();
    words.push(Json::Object(row).compact());
    words.push(region.clone());
    words.push("StartSession".to_owned());
    words.push(profile);
    words.push(Json::Object(target).compact());
    words.push(endpoint);
    proof {
        let view = words.deep_view();
        assert(view =~= seq![view[0], view[1], view[2], view[3], view[4], view[5]]);
    }
    words
}

/// What is said of a session plugin that ended with a status that is no success.
pub fn ssh_result(failed_status: Option<&str>) -> (r: Result<(), AwlError>)
    ensures
        match failed_status {
            Some(status) => r matches Err(error) && error@ == Failure::Aws(
                "session-manager-plugin exited with status "@ + status@,
            ),
            None => r is Ok,
        },
{
    match failed_status {
        Some(status) => Err(
            AwlError::Aws {
                message: "session-manager-plugin exited with status ".to_owned().concat(status),
            },
        ),
        None => Ok(()),
    }
}

/// A machine image as the service describes it.
#[derive(Debug)]
pub struct ImageInfo {
    pub image_id: Option<String>,
    pub name: Option<String>,
    pub description: Option<String>,
    pub state: Option<String>,
    pub owner_id: Option<String>,
    pub creation_date: Option<String>,
}

/// The record of a machine image.
pub open spec fn image_tree(image: ImageInfo) -> JsonTree {
    JsonTree::Object(
        map![
            "image_id"@ => json::optional_text(image.image_id.deep_view()),
            "name"@ => json::optional_text(image.name.deep_view()),
            "description"@ => json::optional_text(image.description.deep_view()),
            "state"@ => json::optional_text(image.state.deep_view()),
            "owner_id"@ => json::optional_text(image.owner_id.deep_view()),
            "creation_date"@ => json::optional_text(image.creation_date.deep_view()),
        ],
    )
}

/// The records of the images.
pub open spec fn images_shown(images: Seq<ImageInfo>) -> Shown {
    Shown::Many(images.map_values(|image: ImageInfo| image_tree(image)))
}

/// What is shown of machine images.
pub fn image_rows(images: &Vec<ImageInfo>) -> (r: Output)
    ensures
        r@ == images_shown(images@),
{
    let mut rows: Vec<Json> = Vec::new();
    let mut i: usize = 0;
    while i < images.len()
        invariant
            i <= images.len(),
            rows@.len() == i,
            forall|j: int| 0 <= j < i ==> (#[trigger] rows@[j]).tree() == image_tree(images@[j]),
        decreases images.len() - i,
    {
        let mut row = Fields::new();
        row.insert("image_id", Json::optional_string(&images[i].image_id));
        row.insert("name", Json::optional_string(&images[i].name));
        row.insert("description", Json::optional_string(&images[i].description));
        row.insert("state", Json::optional_string(&images[i].state));
        row.insert("owner_id", Json::optional_string(&images[i].owner_id));
        row.insert("creation_date", Json::optional_string(&images[i].creation_date));
        rows.push(Json::Object(row));
        i += 1;
    }
    assert(json::trees(rows@) =~= images@.map_values(|image: ImageInfo| image_tree(image)));
    Output::Many(rows)
}

/// Every listed type is within the bounds on virtual CPUs: under a lowest number
/// it has a known one that is at least that, and under a highest number a known
/// one that is at most that. The lowest bound zero and the highest that there is
/// bound nothing.
pub proof fn law_listed_types_have_vcpus_in_bounds(
    catalog: Seq<Ec2TypeRecord>,
    args: Ec2TypesArgs,
    region: Seq<char>,
    places: Seq<usize>,
    k: int,
)
    requires
        arranged(catalog, args, region, places),
        0 <= k < places.len(),
    ensures
        places[k] < catalog.len(),
        args.max_vcpu matches Some(max) ==> max < u32::MAX ==> (
        catalog[places[k] as int].vcpu matches Some(n) && n <= max),
        args.min_vcpu matches Some(min) ==> min > 0 ==> (
        catalog[places[k] as int].vcpu matches Some(n) && n >= min),
{
    assert(places.to_set().contains(places[k]));
}

/// Every listed type is within the bounds on memory, where its memory is known:
/// compared as numbers, not by their bits.
pub proof fn law_listed_types_have_memory_in_bounds(
    catalog: Seq<Ec2TypeRecord>,
    args: Ec2TypesArgs,
    region: Seq<char>,
    places: Seq<usize>,
    k: int,
    memory: Measure,
)
    requires
        arranged(catalog, args, region, places),
        0 <= k < places.len(),
        catalog[places[k] as int].memory_gib == Some(memory),
        measure::is_finite(memory.value()),
    ensures
        args.min_memory matches Some(min) ==> measure::is_finite(min) ==> measure::scaled(min)
            <= measure::scaled(memory.value()),
        args.max_memory matches Some(max) ==> measure::is_finite(max) ==> measure::scaled(
            memory.value(),
        ) <= measure::scaled(max),
{
    assert(places.to_set().contains(places[k]));
    if let Some(min) = args.min_memory {
        if measure::is_finite(min) {
            measure::law_rank_orders_numbers(memory.value(), min);
        }
    }
    if let Some(max) = args.max_memory {
        if measure::is_finite(max) {
            measure::law_rank_orders_numbers(max, memory.value());
        }
    }
}

/// Every listed type has what was searched for: the text in its name, its family,
/// its long name or its processor, the architecture among its own, the text in
/// its family, whatever the case of the letters; and it is current, or has a GPU,
/// where that was asked for.
pub proof fn law_listed_types_are_as_searched(
    catalog: Seq<Ec2TypeRecord>,
    args: Ec2TypesArgs,
    region: Seq<char>,
    places: Seq<usize>,
    k: int,
)
    requires
        arranged(catalog, args, region, places),
        0 <= k < places.len(),
    ensures
        ({
            let instance = catalog[places[k] as int];
            &&& args.query matches Some(query) ==> {
                let q = text::lowercase(query@);
                ||| text::find_text(text::lowercase(instance.instance_type@), q) is Some
                ||| instance.family matches Some(s) && text::find_text(text::lowercase(s@), q)
                    is Some
                ||| instance.pretty_name matches Some(s) && text::find_text(text::lowercase(s@), q)
                    is Some
                ||| instance.processor matches Some(s) && text::find_text(text::lowercase(s@), q)
                    is Some
            }
            &&& args.arch matches Some(arch) ==> exists|i: int|
                0 <= i < instance.arch@.len() && text::lowercase((#[trigger] instance.arch@[i])@)
                    == text::lowercase(arch@)
            &&& args.family matches Some(family) ==> instance.family matches Some(s)
                && text::find_text(text::lowercase(s@), text::lowercase(family@)) is Some
            &&& args.current ==> (instance.generation matches Some(s) && s@ == "current"@)
            &&& args.gpu ==> (instance.gpu matches Some(m) && (measure::is_finite(m.value())
                ==> measure::scaled(m.value()) > 0))
        }),
{
    let instance = catalog[places[k] as int];
    assert(places.to_set().contains(places[k]));
    if args.gpu {
        if let Some(m) = instance.gpu {
            if measure::is_finite(m.value()) {
                measure::law_rank_orders_numbers(0, m.value());
                assert(measure::scaled(0) == 0) by {
                    assert(measure::significand(0) == 0);
                    vstd::arithmetic::mul::lemma_mul_basics(
                        vstd::arithmetic::power2::pow2(
                            (measure::exponent(0) + 1074) as nat,
                        ) as int,
                    );
                }
            }
        }
    }
}

/// Every type of the catalog that is as searched is listed, once: a type that is
/// not listed fails a filter that was given. Without filters all are listed.
pub proof fn law_every_match_is_listed(
    catalog: Seq<Ec2TypeRecord>,
    args: Ec2TypesArgs,
    region: Seq<char>,
    places: Seq<usize>,
    i: usize,
)
    requires
        arranged(catalog, args, region, places),
        i < catalog.len(),
        !places.contains(i),
    ensures
        ({
            let instance = catalog[i as int];
            ||| args.query matches Some(query) && {
                let q = text::lowercase(query@);
                &&& text::find_text(text::lowercase(instance.instance_type@), q) is None
                &&& instance.family matches Some(s) ==> text::find_text(text::lowercase(s@), q)
                    is None
                &&& instance.pretty_name matches Some(s) ==> text::find_text(text::lowercase(s@), q)
                    is None
                &&& instance.processor matches Some(s) ==> text::find_text(text::lowercase(s@), q)
                    is None
            }
            ||| args.arch matches Some(arch) && forall|i: int|
                0 <= i < instance.arch@.len() ==> text::lowercase((#[trigger] instance.arch@[i])@)
                    != text::lowercase(arch@)
            ||| args.family matches Some(family) && (instance.family matches Some(s)
                ==> text::find_text(text::lowercase(s@), text::lowercase(family@)) is None)
            ||| args.current && (instance.generation matches Some(s) ==> s@ != "current"@)
            ||| args.gpu && (instance.gpu matches Some(m) ==> !measure::less(0, m.value()))
            ||| args.min_vcpu matches Some(min) && min > 0 && (instance.vcpu matches Some(n)
                ==> n < min)
            ||| args.max_vcpu matches Some(max) && (instance.vcpu matches Some(n) ==> n > max)
            ||| args.min_memory matches Some(min) && (match instance.memory_gib {
                Some(m) => measure::less(m.value(), min),
                None => measure::less(0, min),
            })
            ||| args.max_memory matches Some(max) && (match instance.memory_gib {
                Some(m) => measure::less(max, m.value()),
                None => measure::less(max, 0x7fef_ffff_ffff_ffff),
            })
        }),
{
    assert(!places.to_set().contains(i));
}

/// Each type is listed at most once.
pub proof fn law_no_type_is_listed_twice(
    catalog: Seq<Ec2TypeRecord>,
    args: Ec2TypesArgs,
    region: Seq<char>,
    places: Seq<usize>,
    a: int,
    b: int,
)
    requires
        arranged(catalog, args, region, places),
        0 <= a < b < places.len(),
    ensures
        places[a] != places[b],
{
    if places[a] == places[b] {
        assert(comes_before(
            catalog,
            places[a] as int,
            places[b] as int,
            args.sort,
            region,
        ));
        text::lemma_precedes_irreflexive(catalog[places[a] as int].instance_type@);
    }
}

/// The listed types are in the order that was asked for: by name, by virtual CPUs,
/// by memory or by price, from the least on, those without a price last; and those
/// that are equal in it by name.
pub proof fn law_listed_types_are_sorted(
    catalog: Seq<Ec2TypeRecord>,
    args: Ec2TypesArgs,
    region: Seq<char>,
    places: Seq<usize>,
    a: int,
    b: int,
)
    requires
        arranged(catalog, args, region, places),
        0 <= a < b < places.len(),
    ensures
        ({
            let x = catalog[places[a] as int];
            let y = catalog[places[b] as int];
            match args.sort {
                Ec2TypesSort::Type => !text::precedes(y.instance_type@, x.instance_type@),
                Ec2TypesSort::Vcpu => {
                    let m = if x.vcpu is Some {
                        x.vcpu->Some_0
                    } else {
                        0
                    };
                    let n = if y.vcpu is Some {
                        y.vcpu->Some_0
                    } else {
                        0
                    };
                    &&& m <= n
                    &&& m == n ==> !text::precedes(y.instance_type@, x.instance_type@)
                },
                Ec2TypesSort::Memory => (x.memory_gib is Some && y.memory_gib is Some
                    && measure::is_finite(x.memory_gib->Some_0.value()) && measure::is_finite(
                    y.memory_gib->Some_0.value(),
                )) ==> measure::scaled(x.memory_gib->Some_0.value()) <= measure::scaled(
                    y.memory_gib->Some_0.value(),
                ),
                Ec2TypesSort::Price => {
                    &&& price_in(y, region) is Some ==> price_in(x, region) is Some
                    &&& (price_in(x, region) is Some && price_in(y, region) is Some
                        && measure::is_finite(price_in(x, region)->Some_0.value())
                        && measure::is_finite(price_in(y, region)->Some_0.value()))
                        ==> measure::scaled(price_in(x, region)->Some_0.value())
                        <= measure::scaled(price_in(y, region)->Some_0.value())
                    &&& price_in(x, region) is None && price_in(y, region) is None
                        ==> !text::precedes(y.instance_type@, x.instance_type@)
                },
            }
        }),
{
    let x = catalog[places[a] as int];
    let y = catalog[places[b] as int];
    assert(comes_before(catalog, places[a] as int, places[b] as int, args.sort, region));
    text::lemma_precedes_total(x.instance_type@, y.instance_type@);
    text::lemma_precedes_total(y.instance_type@, x.instance_type@);
    match args.sort {
        Ec2TypesSort::Memory => {
            if x.memory_gib is Some && y.memory_gib is Some && measure::is_finite(
                x.memory_gib->Some_0.value(),
            ) && measure::is_finite(y.memory_gib->Some_0.value()) {
                measure::law_rank_orders_numbers(
                    y.memory_gib->Some_0.value(),
                    x.memory_gib->Some_0.value(),
                );
            }
        },
        Ec2TypesSort::Price => {
            if price_in(x, region) is Some && price_in(y, region) is Some && measure::is_finite(
                price_in(x, region)->Some_0.value(),
            ) && measure::is_finite(price_in(y, region)->Some_0.value()) {
                measure::law_rank_orders_numbers(
                    price_in(y, region)->Some_0.value(),
                    price_in(x, region)->Some_0.value(),
                );
            }
        },
        _ => {},
    }
}

/// What is shown is a row for each listed type from the first on, as many as the
/// limit allows, and all of them without one.
pub proof fn law_limit_cuts_the_list(
    catalog: Seq<Ec2TypeRecord>,
    args: Ec2TypesArgs,
    region: Seq<char>,
    shown: Shown,
    places: Seq<usize>,
)
    requires
        lists_types(catalog, args, region, shown),
        arranged(catalog, args, region, places),
    ensures
        shown matches Shown::Many(rows) && {
            &&& rows.len() <= places.len()
            &&& args.limit is None ==> rows.len() == places.len()
            &&& args.limit matches Some(n) ==> rows.len() <= n && (rows.len() == n || rows.len()
                == places.len())
            &&& forall|k: int|
                0 <= k < rows.len() ==> #[trigger] rows[k] == type_tree(
                    catalog[places[k] as int],
                    args,
                    region,
                )
        },
{
    let other = choose|other: Seq<usize>|
        #[trigger] arranged(catalog, args, region, other) && shown == Shown::Many(
            other.take(shown_count(args.limit, other.len())).map_values(
                |i: usize| type_tree(catalog[i as int], args, region),
            ),
        );
    law_arrangement_is_unique(catalog, args, region, places, other);
}

/// The price of a type in a region is the first that the catalog gives for that
/// region, and there is none exactly where the catalog gives none.
pub proof fn law_price_is_of_the_region(instance: Ec2TypeRecord, region: Seq<char>)
    ensures
        match price_in(instance, region) {
            Some(price) => exists|i: int|
                0 <= i < instance.linux_on_demand@.len() && (
                #[trigger] instance.linux_on_demand@[i]).0@ == region
                    && instance.linux_on_demand@[i].1 == price,
            None => forall|i: int|
                0 <= i < instance.linux_on_demand@.len() ==> (
                #[trigger] instance.linux_on_demand@[i]).0@ != region,
        },
{
    lemma_price_from(instance.linux_on_demand@, region, 0);
}

proof fn lemma_price_from(prices: Seq<(String, Measure)>, region: Seq<char>, i: int)
    requires
        0 <= i,
    ensures
        match price_from(prices, region, i) {
            Some(price) => exists|k: int|
                i <= k < prices.len() && (#[trigger] prices[k]).0@ == region && prices[k].1
                    == price,
            None => forall|k: int|
                i <= k < prices.len() ==> (#[trigger] prices[k]).0@ != region,
        },
    decreases prices.len() - i,
{
    if i < prices.len() && prices[i].0@ != region {
        lemma_price_from(prices, region, i + 1);
    }
}

/// The region of the prices is the one that was asked for, else that of the
/// command line, else that of the environment, else the first region of AWS.
pub proof fn law_price_region_is_found(
    args: Ec2TypesArgs,
    global: Option<Seq<char>>,
    variable: Option<Seq<char>>,
)
    ensures
        args.price_region matches Some(region) ==> region_for_price(args, global, variable)
            == region@,
        args.price_region is None && global is Some ==> region_for_price(args, global, variable)
            == global->Some_0,
        args.price_region is None && global is None && variable is Some ==> region_for_price(
            args,
            global,
            variable,
        ) == variable->Some_0,
        args.price_region is None && global is None && variable is None ==> region_for_price(
            args,
            global,
            variable,
        ) == "us-east-1"@,
{
}

/// The value of a field, where there is such a field.
#[verifier::opaque]
pub open spec fn cell_in(fields: Map<Seq<char>, JsonTree>, name: Seq<char>) -> Option<JsonTree> {
    if fields.contains_key(name) {
        Some(fields[name])
    } else {
        None
    }
}

/// A field that is set is found, and the others stay as they were.
proof fn lemma_cells()
    ensures
        forall|
            fields: Map<Seq<char>, JsonTree>,
            name: Seq<char>,
            value: Option<JsonTree>,
            other: Seq<char>,
        |
            #[trigger] cell_in(with_field(fields, name, value), other) == (if other == name
                && value is Some {
                value
            } else {
                cell_in(fields, other)
            }),
        forall|fields: Map<Seq<char>, JsonTree>, name: Seq<char>, tree: JsonTree, other: Seq<char>|
            #[trigger] cell_in(fields.insert(name, tree), other) == (if other == name {
                Some(tree)
            } else {
                cell_in(fields, other)
            }),
        forall|other: Seq<char>|
            #[trigger] cell_in(Map::<Seq<char>, JsonTree>::empty(), other) is None,
{
    reveal(with_field);
    reveal(cell_in);
}

/// The names of the columns differ.
#[verifier::rlimit(60)]
proof fn lemma_column_names()
    ensures
        "instance_type"@ != "arch"@,
        "instance_type"@ != "storage"@,
        "instance_type"@ != "family"@,
        "instance_type"@ != "vcpu"@,
        "instance_type"@ != "memory_gib"@,
        "instance_type"@ != "generation"@,
        "instance_type"@ != "network"@,
        "instance_type"@ != "gpu"@,
        "instance_type"@ != "pretty_name"@,
        "instance_type"@ != "processor"@,
        "instance_type"@ != "clock_speed_ghz"@,
        "instance_type"@ != "gpu_model"@,
        "instance_type"@ != "gpu_memory_gib"@,
        "instance_type"@ != "fpga"@,
        "instance_type"@ != "ebs_optimized"@,
        "instance_type"@ != "ebs_baseline_bandwidth_mbps"@,
        "instance_type"@ != "ebs_baseline_iops"@,
        "instance_type"@ != "ebs_max_bandwidth_mbps"@,
        "instance_type"@ != "ebs_max_iops"@,
        "instance_type"@ != "enhanced_networking"@,
        "instance_type"@ != "vpc_max_enis"@,
        "instance_type"@ != "vpc_ips_per_eni"@,
        "instance_type"@ != "price_region"@,
        "instance_type"@ != "linux_ondemand_usd_per_hour"@,
        "instance_type"@ != "linux_on_demand"@,
        "arch"@ != "storage"@,
        "arch"@ != "family"@,
        "arch"@ != "vcpu"@,
        "arch"@ != "memory_gib"@,
        "arch"@ != "generation"@,
        "arch"@ != "network"@,
        "arch"@ != "gpu"@,
        "arch"@ != "pretty_name"@,
        "arch"@ != "processor"@,
        "arch"@ != "clock_speed_ghz"@,
        "arch"@ != "gpu_model"@,
        "arch"@ != "gpu_memory_gib"@,
        "arch"@ != "fpga"@,
        "arch"@ != "ebs_optimized"@,
        "arch"@ != "ebs_baseline_bandwidth_mbps"@,
        "arch"@ != "ebs_baseline_iops"@,
        "arch"@ != "ebs_max_bandwidth_mbps"@,
        "arch"@ != "ebs_max_iops"@,
        "arch"@ != "enhanced_networking"@,
        "arch"@ != "vpc_max_enis"@,
        "arch"@ != "vpc_ips_per_eni"@,
        "arch"@ != "price_region"@,
        "arch"@ != "linux_ondemand_usd_per_hour"@,
        "arch"@ != "linux_on_demand"@,
        "storage"@ != "family"@,
        "storage"@ != "vcpu"@,
        "storage"@ != "memory_gib"@,
        "storage"@ != "generation"@,
        "storage"@ != "network"@,
        "storage"@ != "gpu"@,
        "storage"@ != "pretty_name"@,
        "storage"@ != "processor"@,
        "storage"@ != "clock_speed_ghz"@,
        "storage"@ != "gpu_model"@,
        "storage"@ != "gpu_memory_gib"@,
        "storage"@ != "fpga"@,
        "storage"@ != "ebs_optimized"@,
        "storage"@ != "ebs_baseline_bandwidth_mbps"@,
        "storage"@ != "ebs_baseline_iops"@,
        "storage"@ != "ebs_max_bandwidth_mbps"@,
        "storage"@ != "ebs_max_iops"@,
        "storage"@ != "enhanced_networking"@,
        "storage"@ != "vpc_max_enis"@,
        "storage"@ != "vpc_ips_per_eni"@,
        "storage"@ != "price_region"@,
        "storage"@ != "linux_ondemand_usd_per_hour"@,
        "storage"@ != "linux_on_demand"@,
        "family"@ != "vcpu"@,
        "family"@ != "memory_gib"@,
        "family"@ != "generation"@,
        "family"@ != "network"@,
        "family"@ != "gpu"@,
        "family"@ != "pretty_name"@,
        "family"@ != "processor"@,
        "family"@ != "clock_speed_ghz"@,
        "family"@ != "gpu_model"@,
        "family"@ != "gpu_memory_gib"@,
        "family"@ != "fpga"@,
        "family"@ != "ebs_optimized"@,
        "family"@ != "ebs_baseline_bandwidth_mbps"@,
        "family"@ != "ebs_baseline_iops"@,
        "family"@ != "ebs_max_bandwidth_mbps"@,
        "family"@ != "ebs_max_iops"@,
        "family"@ != "enhanced_networking"@,
        "family"@ != "vpc_max_enis"@,
        "family"@ != "vpc_ips_per_eni"@,
        "family"@ != "price_region"@,
        "family"@ != "linux_ondemand_usd_per_hour"@,
        "family"@ != "linux_on_demand"@,
        "vcpu"@ != "memory_gib"@,
        "vcpu"@ != "generation"@,
        "vcpu"@ != "network"@,
        "vcpu"@ != "gpu"@,
        "vcpu"@ != "pretty_name"@,
        "vcpu"@ != "processor"@,
        "vcpu"@ != "clock_speed_ghz"@,
        "vcpu"@ != "gpu_model"@,
        "vcpu"@ != "gpu_memory_gib"@,
        "vcpu"@ != "fpga"@,
        "vcpu"@ != "ebs_optimized"@,
        "vcpu"@ != "ebs_baseline_bandwidth_mbps"@,
        "vcpu"@ != "ebs_baseline_iops"@,
        "vcpu"@ != "ebs_max_bandwidth_mbps"@,
        "vcpu"@ != "ebs_max_iops"@,
        "vcpu"@ != "enhanced_networking"@,
        "vcpu"@ != "vpc_max_enis"@,
        "vcpu"@ != "vpc_ips_per_eni"@,
        "vcpu"@ != "price_region"@,
        "vcpu"@ != "linux_ondemand_usd_per_hour"@,
        "vcpu"@ != "linux_on_demand"@,
        "memory_gib"@ != "generation"@,
        "memory_gib"@ != "network"@,
        "memory_gib"@ != "gpu"@,
        "memory_gib"@ != "pretty_name"@,
        "memory_gib"@ != "processor"@,
        "memory_gib"@ != "clock_speed_ghz"@,
        "memory_gib"@ != "gpu_model"@,
        "memory_gib"@ != "gpu_memory_gib"@,
        "memory_gib"@ != "fpga"@,
        "memory_gib"@ != "ebs_optimized"@,
        "memory_gib"@ != "ebs_baseline_bandwidth_mbps"@,
        "memory_gib"@ != "ebs_baseline_iops"@,
        "memory_gib"@ != "ebs_max_bandwidth_mbps"@,
        "memory_gib"@ != "ebs_max_iops"@,
        "memory_gib"@ != "enhanced_networking"@,
        "memory_gib"@ != "vpc_max_enis"@,
        "memory_gib"@ != "vpc_ips_per_eni"@,
        "memory_gib"@ != "price_region"@,
        "memory_gib"@ != "linux_ondemand_usd_per_hour"@,
        "memory_gib"@ != "linux_on_demand"@,
        "generation"@ != "network"@,
        "generation"@ != "gpu"@,
        "generation"@ != "pretty_name"@,
        "generation"@ != "processor"@,
        "generation"@ != "clock_speed_ghz"@,
        "generation"@ != "gpu_model"@,
        "generation"@ != "gpu_memory_gib"@,
        "generation"@ != "fpga"@,
        "generation"@ != "ebs_optimized"@,
        "generation"@ != "ebs_baseline_bandwidth_mbps"@,
        "generation"@ != "ebs_baseline_iops"@,
        "generation"@ != "ebs_max_bandwidth_mbps"@,
        "generation"@ != "ebs_max_iops"@,
        "generation"@ != "enhanced_networking"@,
        "generation"@ != "vpc_max_enis"@,
        "generation"@ != "vpc_ips_per_eni"@,
        "generation"@ != "price_region"@,
        "generation"@ != "linux_ondemand_usd_per_hour"@,
        "generation"@ != "linux_on_demand"@,
        "network"@ != "gpu"@,
        "network"@ != "pretty_name"@,
        "network"@ != "processor"@,
        "network"@ != "clock_speed_ghz"@,
        "network"@ != "gpu_model"@,
        "network"@ != "gpu_memory_gib"@,
        "network"@ != "fpga"@,
        "network"@ != "ebs_optimized"@,
        "network"@ != "ebs_baseline_bandwidth_mbps"@,
        "network"@ != "ebs_baseline_iops"@,
        "network"@ != "ebs_max_bandwidth_mbps"@,
        "network"@ != "ebs_max_iops"@,
        "network"@ != "enhanced_networking"@,
        "network"@ != "vpc_max_enis"@,
        "network"@ != "vpc_ips_per_eni"@,
        "network"@ != "price_region"@,
        "network"@ != "linux_ondemand_usd_per_hour"@,
        "network"@ != "linux_on_demand"@,
        "gpu"@ != "pretty_name"@,
        "gpu"@ != "processor"@,
        "gpu"@ != "clock_speed_ghz"@,
        "gpu"@ != "gpu_model"@,
        "gpu"@ != "gpu_memory_gib"@,
        "gpu"@ != "fpga"@,
        "gpu"@ != "ebs_optimized"@,
        "gpu"@ != "ebs_baseline_bandwidth_mbps"@,
        "gpu"@ != "ebs_baseline_iops"@,
        "gpu"@ != "ebs_max_bandwidth_mbps"@,
        "gpu"@ != "ebs_max_iops"@,
        "gpu"@ != "enhanced_networking"@,
        "gpu"@ != "vpc_max_enis"@,
        "gpu"@ != "vpc_ips_per_eni"@,
        "gpu"@ != "price_region"@,
        "gpu"@ != "linux_ondemand_usd_per_hour"@,
        "gpu"@ != "linux_on_demand"@,
        "pretty_name"@ != "processor"@,
        "pretty_name"@ != "clock_speed_ghz"@,
        "pretty_name"@ != "gpu_model"@,
        "pretty_name"@ != "gpu_memory_gib"@,
        "pretty_name"@ != "fpga"@,
        "pretty_name"@ != "ebs_optimized"@,
        "pretty_name"@ != "ebs_baseline_bandwidth_mbps"@,
        "pretty_name"@ != "ebs_baseline_iops"@,
        "pretty_name"@ != "ebs_max_bandwidth_mbps"@,
        "pretty_name"@ != "ebs_max_iops"@,
        "pretty_name"@ != "enhanced_networking"@,
        "pretty_name"@ != "vpc_max_enis"@,
        "pretty_name"@ != "vpc_ips_per_eni"@,
        "pretty_name"@ != "price_region"@,
        "pretty_name"@ != "linux_ondemand_usd_per_hour"@,
        "pretty_name"@ != "linux_on_demand"@,
        "processor"@ != "clock_speed_ghz"@,
        "processor"@ != "gpu_model"@,
        "processor"@ != "gpu_memory_gib"@,
        "processor"@ != "fpga"@,
        "processor"@ != "ebs_optimized"@,
        "processor"@ != "ebs_baseline_bandwidth_mbps"@,
        "processor"@ != "ebs_baseline_iops"@,
        "processor"@ != "ebs_max_bandwidth_mbps"@,
        "processor"@ != "ebs_max_iops"@,
        "processor"@ != "enhanced_networking"@,
        "processor"@ != "vpc_max_enis"@,
        "processor"@ != "vpc_ips_per_eni"@,
        "processor"@ != "price_region"@,
        "processor"@ != "linux_ondemand_usd_per_hour"@,
        "processor"@ != "linux_on_demand"@,
        "clock_speed_ghz"@ != "gpu_model"@,
        "clock_speed_ghz"@ != "gpu_memory_gib"@,
        "clock_speed_ghz"@ != "fpga"@,
        "clock_speed_ghz"@ != "ebs_optimized"@,
        "clock_speed_ghz"@ != "ebs_baseline_bandwidth_mbps"@,
        "clock_speed_ghz"@ != "ebs_baseline_iops"@,
        "clock_speed_ghz"@ != "ebs_max_bandwidth_mbps"@,
        "clock_speed_ghz"@ != "ebs_max_iops"@,
        "clock_speed_ghz"@ != "enhanced_networking"@,
        "clock_speed_ghz"@ != "vpc_max_enis"@,
        "clock_speed_ghz"@ != "vpc_ips_per_eni"@,
        "clock_speed_ghz"@ != "price_region"@,
        "clock_speed_ghz"@ != "linux_ondemand_usd_per_hour"@,
        "clock_speed_ghz"@ != "linux_on_demand"@,
        "gpu_model"@ != "gpu_memory_gib"@,
        "gpu_model"@ != "fpga"@,
        "gpu_model"@ != "ebs_optimized"@,
        "gpu_model"@ != "ebs_baseline_bandwidth_mbps"@,
        "gpu_model"@ != "ebs_baseline_iops"@,
        "gpu_model"@ != "ebs_max_bandwidth_mbps"@,
        "gpu_model"@ != "ebs_max_iops"@,
        "gpu_model"@ != "enhanced_networking"@,
        "gpu_model"@ != "vpc_max_enis"@,
        "gpu_model"@ != "vpc_ips_per_eni"@,
        "gpu_model"@ != "price_region"@,
        "gpu_model"@ != "linux_ondemand_usd_per_hour"@,
        "gpu_model"@ != "linux_on_demand"@,
        "gpu_memory_gib"@ != "fpga"@,
        "gpu_memory_gib"@ != "ebs_optimized"@,
        "gpu_memory_gib"@ != "ebs_baseline_bandwidth_mbps"@,
        "gpu_memory_gib"@ != "ebs_baseline_iops"@,
        "gpu_memory_gib"@ != "ebs_max_bandwidth_mbps"@,
        "gpu_memory_gib"@ != "ebs_max_iops"@,
        "gpu_memory_gib"@ != "enhanced_networking"@,
        "gpu_memory_gib"@ != "vpc_max_enis"@,
        "gpu_memory_gib"@ != "vpc_ips_per_eni"@,
        "gpu_memory_gib"@ != "price_region"@,
        "gpu_memory_gib"@ != "linux_ondemand_usd_per_hour"@,
        "gpu_memory_gib"@ != "linux_on_demand"@,
        "fpga"@ != "ebs_optimized"@,
        "fpga"@ != "ebs_baseline_bandwidth_mbps"@,
        "fpga"@ != "ebs_baseline_iops"@,
        "fpga"@ != "ebs_max_bandwidth_mbps"@,
        "fpga"@ != "ebs_max_iops"@,
        "fpga"@ != "enhanced_networking"@,
        "fpga"@ != "vpc_max_enis"@,
        "fpga"@ != "vpc_ips_per_eni"@,
        "fpga"@ != "price_region"@,
        "fpga"@ != "linux_ondemand_usd_per_hour"@,
        "fpga"@ != "linux_on_demand"@,
        "ebs_optimized"@ != "ebs_baseline_bandwidth_mbps"@,
        "ebs_optimized"@ != "ebs_baseline_iops"@,
        "ebs_optimized"@ != "ebs_max_bandwidth_mbps"@,
        "ebs_optimized"@ != "ebs_max_iops"@,
        "ebs_optimized"@ != "enhanced_networking"@,
        "ebs_optimized"@ != "vpc_max_enis"@,
        "ebs_optimized"@ != "vpc_ips_per_eni"@,
        "ebs_optimized"@ != "price_region"@,
        "ebs_optimized"@ != "linux_ondemand_usd_per_hour"@,
        "ebs_optimized"@ != "linux_on_demand"@,
        "ebs_baseline_bandwidth_mbps"@ != "ebs_baseline_iops"@,
        "ebs_baseline_bandwidth_mbps"@ != "ebs_max_bandwidth_mbps"@,
        "ebs_baseline_bandwidth_mbps"@ != "ebs_max_iops"@,
        "ebs_baseline_bandwidth_mbps"@ != "enhanced_networking"@,
        "ebs_baseline_bandwidth_mbps"@ != "vpc_max_enis"@,
        "ebs_baseline_bandwidth_mbps"@ != "vpc_ips_per_eni"@,
        "ebs_baseline_bandwidth_mbps"@ != "price_region"@,
        "ebs_baseline_bandwidth_mbps"@ != "linux_ondemand_usd_per_hour"@,
        "ebs_baseline_bandwidth_mbps"@ != "linux_on_demand"@,
        "ebs_baseline_iops"@ != "ebs_max_bandwidth_mbps"@,
        "ebs_baseline_iops"@ != "ebs_max_iops"@,
        "ebs_baseline_iops"@ != "enhanced_networking"@,
        "ebs_baseline_iops"@ != "vpc_max_enis"@,
        "ebs_baseline_iops"@ != "vpc_ips_per_eni"@,
        "ebs_baseline_iops"@ != "price_region"@,
        "ebs_baseline_iops"@ != "linux_ondemand_usd_per_hour"@,
        "ebs_baseline_iops"@ != "linux_on_demand"@,
        "ebs_max_bandwidth_mbps"@ != "ebs_max_iops"@,
        "ebs_max_bandwidth_mbps"@ != "enhanced_networking"@,
        "ebs_max_bandwidth_mbps"@ != "vpc_max_enis"@,
        "ebs_max_bandwidth_mbps"@ != "vpc_ips_per_eni"@,
        "ebs_max_bandwidth_mbps"@ != "price_region"@,
        "ebs_max_bandwidth_mbps"@ != "linux_ondemand_usd_per_hour"@,
        "ebs_max_bandwidth_mbps"@ != "linux_on_demand"@,
        "ebs_max_iops"@ != "enhanced_networking"@,
        "ebs_max_iops"@ != "vpc_max_enis"@,
        "ebs_max_iops"@ != "vpc_ips_per_eni"@,
        "ebs_max_iops"@ != "price_region"@,
        "ebs_max_iops"@ != "linux_ondemand_usd_per_hour"@,
        "ebs_max_iops"@ != "linux_on_demand"@,
        "enhanced_networking"@ != "vpc_max_enis"@,
        "enhanced_networking"@ != "vpc_ips_per_eni"@,
        "enhanced_networking"@ != "price_region"@,
        "enhanced_networking"@ != "linux_ondemand_usd_per_hour"@,
        "enhanced_networking"@ != "linux_on_demand"@,
        "vpc_max_enis"@ != "vpc_ips_per_eni"@,
        "vpc_max_enis"@ != "price_region"@,
        "vpc_max_enis"@ != "linux_ondemand_usd_per_hour"@,
        "vpc_max_enis"@ != "linux_on_demand"@,
        "vpc_ips_per_eni"@ != "price_region"@,
        "vpc_ips_per_eni"@ != "linux_ondemand_usd_per_hour"@,
        "vpc_ips_per_eni"@ != "linux_on_demand"@,
        "price_region"@ != "linux_ondemand_usd_per_hour"@,
        "price_region"@ != "linux_on_demand"@,
        "linux_ondemand_usd_per_hour"@ != "linux_on_demand"@,
{
    reveal_strlit("instance_type");
    reveal_strlit("arch");
    reveal_strlit("storage");
    reveal_strlit("family");
    reveal_strlit("vcpu");
    reveal_strlit("memory_gib");
    reveal_strlit("generation");
    reveal_strlit("network");
    reveal_strlit("gpu");
    reveal_strlit("pretty_name");
    reveal_strlit("processor");
    reveal_strlit("clock_speed_ghz");
    reveal_strlit("gpu_model");
    reveal_strlit("gpu_memory_gib");
    reveal_strlit("fpga");
    reveal_strlit("ebs_optimized");
    reveal_strlit("ebs_baseline_bandwidth_mbps");
    reveal_strlit("ebs_baseline_iops");
    reveal_strlit("ebs_max_bandwidth_mbps");
    reveal_strlit("ebs_max_iops");
    reveal_strlit("enhanced_networking");
    reveal_strlit("vpc_max_enis");
    reveal_strlit("vpc_ips_per_eni");
    reveal_strlit("price_region");
    reveal_strlit("linux_ondemand_usd_per_hour");
    reveal_strlit("linux_on_demand");
    assert("instance_type"@.len() == 13);
    assert("arch"@.len() == 4);
    assert("storage"@.len() == 7);
    assert("family"@.len() == 6);
    assert("vcpu"@.len() == 4);
    assert("memory_gib"@.len() == 10);
    assert("generation"@.len() == 10);
    assert("network"@.len() == 7);
    assert("gpu"@.len() == 3);
    assert("pretty_name"@.len() == 11);
    assert("processor"@.len() == 9);
    assert("clock_speed_ghz"@.len() == 15);
    assert("gpu_model"@.len() == 9);
    assert("gpu_memory_gib"@.len() == 14);
    assert("fpga"@.len() == 4);
    assert("ebs_optimized"@.len() == 13);
    assert("ebs_baseline_bandwidth_mbps"@.len() == 27);
    assert("ebs_baseline_iops"@.len() == 17);
    assert("ebs_max_bandwidth_mbps"@.len() == 22);
    assert("ebs_max_iops"@.len() == 12);
    assert("enhanced_networking"@.len() == 19);
    assert("vpc_max_enis"@.len() == 12);
    assert("vpc_ips_per_eni"@.len() == 15);
    assert("price_region"@.len() == 12);
    assert("linux_ondemand_usd_per_hour"@.len() == 27);
    assert("linux_on_demand"@.len() == 15);
    assert("instance_type"@[0] != "ebs_optimized"@[0]);
    assert("arch"@[0] != "vcpu"@[0]);
    assert("arch"@[0] != "fpga"@[0]);
    assert("storage"@[0] != "network"@[0]);
    assert("vcpu"@[0] != "fpga"@[0]);
    assert("memory_gib"@[0] != "generation"@[0]);
    assert("processor"@[0] != "gpu_model"@[0]);
    assert("clock_speed_ghz"@[0] != "vpc_ips_per_eni"@[0]);
    assert("clock_speed_ghz"@[0] != "linux_on_demand"@[0]);
    assert("ebs_baseline_bandwidth_mbps"@[0] != "linux_ondemand_usd_per_hour"@[0]);
    assert("ebs_max_iops"@[0] != "vpc_max_enis"@[0]);
    assert("ebs_max_iops"@[0] != "price_region"@[0]);
    assert("vpc_max_enis"@[0] != "price_region"@[0]);
    assert("vpc_ips_per_eni"@[0] != "linux_on_demand"@[0]);
}

/// The columns of every row.
#[verifier::rlimit(60)]
proof fn lemma_short_cells(instance: Ec2TypeRecord)
    ensures
        cell_in(short_fields(instance), "instance_type"@) == Some(
            JsonTree::Text(instance.instance_type@),
        ),
        cell_in(short_fields(instance), "arch"@) == Some(
            JsonTree::Text(text::joined(instance.arch.deep_view(), ","@)),
        ),
        cell_in(short_fields(instance), "storage"@) == Some(
            JsonTree::Text(storage_text(instance)),
        ),
        cell_in(short_fields(instance), "family"@) == text_cell(instance.family),
        cell_in(short_fields(instance), "vcpu"@) == u32_cell(instance.vcpu),
        cell_in(short_fields(instance), "memory_gib"@) == measure_cell(instance.memory_gib),
        cell_in(short_fields(instance), "generation"@) == text_cell(instance.generation),
        cell_in(short_fields(instance), "network"@) == text_cell(instance.network_performance),
        cell_in(short_fields(instance), "gpu"@) == measure_cell(instance.gpu),
        cell_in(short_fields(instance), "pretty_name"@) is None,
        cell_in(short_fields(instance), "processor"@) is None,
        cell_in(short_fields(instance), "clock_speed_ghz"@) is None,
        cell_in(short_fields(instance), "gpu_model"@) is None,
        cell_in(short_fields(instance), "gpu_memory_gib"@) is None,
        cell_in(short_fields(instance), "fpga"@) is None,
        cell_in(short_fields(instance), "ebs_optimized"@) is None,
        cell_in(short_fields(instance), "ebs_baseline_bandwidth_mbps"@) is None,
        cell_in(short_fields(instance), "ebs_baseline_iops"@) is None,
        cell_in(short_fields(instance), "ebs_max_bandwidth_mbps"@) is None,
        cell_in(short_fields(instance), "ebs_max_iops"@) is None,
        cell_in(short_fields(instance), "enhanced_networking"@) is None,
        cell_in(short_fields(instance), "vpc_max_enis"@) is None,
        cell_in(short_fields(instance), "vpc_ips_per_eni"@) is None,
{
    lemma_cells();
    lemma_column_names();
}

/// The columns of a wide row.
#[verifier::rlimit(60)]
proof fn lemma_wide_cells(instance: Ec2TypeRecord)
    ensures
        cell_in(wide_fields(short_fields(instance), instance), "pretty_name"@) == text_cell(instance.pretty_name),
        cell_in(wide_fields(short_fields(instance), instance), "processor"@) == text_cell(instance.processor),
        cell_in(wide_fields(short_fields(instance), instance), "clock_speed_ghz"@) == text_cell(instance.clock_speed_ghz),
        cell_in(wide_fields(short_fields(instance), instance), "gpu_model"@) == text_cell(instance.gpu_model),
        cell_in(wide_fields(short_fields(instance), instance), "gpu_memory_gib"@) == measure_cell(instance.gpu_memory_gib),
        cell_in(wide_fields(short_fields(instance), instance), "fpga"@) == measure_cell(instance.fpga),
        cell_in(wide_fields(short_fields(instance), instance), "ebs_optimized"@) == bool_cell(instance.ebs_optimized),
        cell_in(wide_fields(short_fields(instance), instance), "ebs_baseline_bandwidth_mbps"@) == measure_cell(instance.ebs_baseline_bandwidth_mbps),
        cell_in(wide_fields(short_fields(instance), instance), "ebs_baseline_iops"@) == u64_cell(instance.ebs_baseline_iops),
        cell_in(wide_fields(short_fields(instance), instance), "ebs_max_bandwidth_mbps"@) == measure_cell(instance.ebs_max_bandwidth_mbps),
        cell_in(wide_fields(short_fields(instance), instance), "ebs_max_iops"@) == u64_cell(instance.ebs_max_iops),
        cell_in(wide_fields(short_fields(instance), instance), "enhanced_networking"@) == bool_cell(instance.enhanced_networking),
        cell_in(wide_fields(short_fields(instance), instance), "vpc_max_enis"@) == u32_cell(instance.vpc_max_enis),
        cell_in(wide_fields(short_fields(instance), instance), "vpc_ips_per_eni"@) == u32_cell(instance.vpc_ips_per_eni),
        cell_in(wide_fields(short_fields(instance), instance), "instance_type"@) == cell_in(
            short_fields(instance),
            "instance_type"@,
        ),
        cell_in(wide_fields(short_fields(instance), instance), "arch"@) == cell_in(
            short_fields(instance),
            "arch"@,
        ),
        cell_in(wide_fields(short_fields(instance), instance), "storage"@) == cell_in(
            short_fields(instance),
            "storage"@,
        ),
        cell_in(wide_fields(short_fields(instance), instance), "family"@) == cell_in(
            short_fields(instance),
            "family"@,
        ),
        cell_in(wide_fields(short_fields(instance), instance), "vcpu"@) == cell_in(
            short_fields(instance),
            "vcpu"@,
        ),
        cell_in(wide_fields(short_fields(instance), instance), "memory_gib"@) == cell_in(
            short_fields(instance),
            "memory_gib"@,
        ),
        cell_in(wide_fields(short_fields(instance), instance), "generation"@) == cell_in(
            short_fields(instance),
            "generation"@,
        ),
        cell_in(wide_fields(short_fields(instance), instance), "network"@) == cell_in(
            short_fields(instance),
            "network"@,
        ),
        cell_in(wide_fields(short_fields(instance), instance), "gpu"@) == cell_in(
            short_fields(instance),
            "gpu"@,
        ),
{
    lemma_short_cells(instance);
    lemma_cells();
    lemma_column_names();
}

/// The row of a type shows what the catalog says of it: a column for each thing
/// that is known, with that value, and none for what is not.
#[verifier::rlimit(60)]
pub proof fn law_type_row_says_the_catalog(
    instance: Ec2TypeRecord,
    args: Ec2TypesArgs,
    region: Seq<char>,
)
    ensures
        cell_in(type_tree(instance, args, region)->Object_0, "instance_type"@) == Some(
            JsonTree::Text(instance.instance_type@),
        ),
        cell_in(type_tree(instance, args, region)->Object_0, "arch"@) == Some(
            JsonTree::Text(text::joined(instance.arch.deep_view(), ","@)),
        ),
        cell_in(type_tree(instance, args, region)->Object_0, "storage"@) == Some(
            JsonTree::Text(storage_text(instance)),
        ),
        cell_in(type_tree(instance, args, region)->Object_0, "family"@) == (match instance.family {
            Some(s) => Some(JsonTree::Text(s@)),
            None => None,
        }),
        cell_in(type_tree(instance, args, region)->Object_0, "vcpu"@) == (match instance.vcpu {
            Some(n) => Some(JsonTree::Number(number::decimal(n as nat))),
            None => None,
        }),
        cell_in(type_tree(instance, args, region)->Object_0, "memory_gib"@) == (match instance.memory_gib {
            Some(m) => Some(measure_tree(m)),
            None => None,
        }),
        cell_in(type_tree(instance, args, region)->Object_0, "generation"@) == (match instance.generation {
            Some(s) => Some(JsonTree::Text(s@)),
            None => None,
        }),
        cell_in(type_tree(instance, args, region)->Object_0, "network"@) == (match instance.network_performance {
            Some(s) => Some(JsonTree::Text(s@)),
            None => None,
        }),
        cell_in(type_tree(instance, args, region)->Object_0, "gpu"@) == (match instance.gpu {
            Some(m) => Some(measure_tree(m)),
            None => None,
        }),
{
    lemma_short_cells(instance);
    lemma_wide_cells(instance);
    lemma_cells();
    lemma_column_names();
}

/// A wide row shows the other things that the catalog says of a type in the same
/// way.
#[verifier::rlimit(60)]
pub proof fn law_wide_row_says_the_catalog(
    instance: Ec2TypeRecord,
    args: Ec2TypesArgs,
    region: Seq<char>,
)
    requires
        args.wide,
    ensures
        cell_in(type_tree(instance, args, region)->Object_0, "pretty_name"@) == (match instance.pretty_name {
            Some(s) => Some(JsonTree::Text(s@)),
            None => None,
        }),
        cell_in(type_tree(instance, args, region)->Object_0, "processor"@) == (match instance.processor {
            Some(s) => Some(JsonTree::Text(s@)),
            None => None,
        }),
        cell_in(type_tree(instance, args, region)->Object_0, "clock_speed_ghz"@) == (match instance.clock_speed_ghz {
            Some(s) => Some(JsonTree::Text(s@)),
            None => None,
        }),
        cell_in(type_tree(instance, args, region)->Object_0, "gpu_model"@) == (match instance.gpu_model {
            Some(s) => Some(JsonTree::Text(s@)),
            None => None,
        }),
        cell_in(type_tree(instance, args, region)->Object_0, "gpu_memory_gib"@) == (match instance.gpu_memory_gib {
            Some(m) => Some(measure_tree(m)),
            None => None,
        }),
        cell_in(type_tree(instance, args, region)->Object_0, "fpga"@) == (match instance.fpga {
            Some(m) => Some(measure_tree(m)),
            None => None,
        }),
        cell_in(type_tree(instance, args, region)->Object_0, "ebs_optimized"@) == (match instance.ebs_optimized {
            Some(b) => Some(JsonTree::Bool(b)),
            None => None,
        }),
        cell_in(type_tree(instance, args, region)->Object_0, "ebs_baseline_bandwidth_mbps"@) == (match instance.ebs_baseline_bandwidth_mbps {
            Some(m) => Some(measure_tree(m)),
            None => None,
        }),
        cell_in(type_tree(instance, args, region)->Object_0, "ebs_baseline_iops"@) == (match instance.ebs_baseline_iops {
            Some(n) => Some(JsonTree::Number(number::decimal(n as nat))),
            None => None,
        }),
        cell_in(type_tree(instance, args, region)->Object_0, "ebs_max_bandwidth_mbps"@) == (match instance.ebs_max_bandwidth_mbps {
            Some(m) => Some(measure_tree(m)),
            None => None,
        }),
        cell_in(type_tree(instance, args, region)->Object_0, "ebs_max_iops"@) == (match instance.ebs_max_iops {
            Some(n) => Some(JsonTree::Number(number::decimal(n as nat))),
            None => None,
        }),
        cell_in(type_tree(instance, args, region)->Object_0, "enhanced_networking"@) == (match instance.enhanced_networking {
            Some(b) => Some(JsonTree::Bool(b)),
            None => None,
        }),
        cell_in(type_tree(instance, args, region)->Object_0, "vpc_max_enis"@) == (match instance.vpc_max_enis {
            Some(n) => Some(JsonTree::Number(number::decimal(n as nat))),
            None => None,
        }),
        cell_in(type_tree(instance, args, region)->Object_0, "vpc_ips_per_eni"@) == (match instance.vpc_ips_per_eni {
            Some(n) => Some(JsonTree::Number(number::decimal(n as nat))),
            None => None,
        }),
{
    lemma_wide_cells(instance);
    lemma_cells();
    lemma_column_names();
}

/// A row that is not wide does not show them.
#[verifier::rlimit(60)]
pub proof fn law_narrow_row_shows_no_more(
    instance: Ec2TypeRecord,
    args: Ec2TypesArgs,
    region: Seq<char>,
)
    requires
        !args.wide,
    ensures
        cell_in(type_tree(instance, args, region)->Object_0, "pretty_name"@) is None,
        cell_in(type_tree(instance, args, region)->Object_0, "processor"@) is None,
        cell_in(type_tree(instance, args, region)->Object_0, "clock_speed_ghz"@) is None,
        cell_in(type_tree(instance, args, region)->Object_0, "gpu_model"@) is None,
        cell_in(type_tree(instance, args, region)->Object_0, "gpu_memory_gib"@) is None,
        cell_in(type_tree(instance, args, region)->Object_0, "fpga"@) is None,
        cell_in(type_tree(instance, args, region)->Object_0, "ebs_optimized"@) is None,
        cell_in(type_tree(instance, args, region)->Object_0, "ebs_baseline_bandwidth_mbps"@) is None,
        cell_in(type_tree(instance, args, region)->Object_0, "ebs_baseline_iops"@) is None,
        cell_in(type_tree(instance, args, region)->Object_0, "ebs_max_bandwidth_mbps"@) is None,
        cell_in(type_tree(instance, args, region)->Object_0, "ebs_max_iops"@) is None,
        cell_in(type_tree(instance, args, region)->Object_0, "enhanced_networking"@) is None,
        cell_in(type_tree(instance, args, region)->Object_0, "vpc_max_enis"@) is None,
        cell_in(type_tree(instance, args, region)->Object_0, "vpc_ips_per_eni"@) is None,
{
    lemma_short_cells(instance);
    lemma_cells();
    lemma_column_names();
}

/// A row with prices shows the price in the region, where there is one, and with
/// all prices each price of the catalog under its region.
#[verifier::rlimit(60)]
pub proof fn law_row_shows_prices(
    instance: Ec2TypeRecord,
    args: Ec2TypesArgs,
    region: Seq<char>,
    i: int,
)
    requires
        !args.no_price,
        0 <= i < instance.linux_on_demand@.len(),
        forall|a: int, b: int|
            0 <= a < b < instance.linux_on_demand@.len() ==> (
            #[trigger] instance.linux_on_demand@[a]).0@ != (
            #[trigger] instance.linux_on_demand@[b]).0@,
    ensures
        ({
            let row = type_tree(instance, args, region)->Object_0;
            &&& row["price_region"@] == JsonTree::Text(region)
            &&& match price_in(instance, region) {
                Some(price) => row["linux_ondemand_usd_per_hour"@] == measure_tree(price),
                None => !row.contains_key("linux_ondemand_usd_per_hour"@),
            }
            &&& args.all_prices ==> (row["linux_on_demand"@] matches JsonTree::Object(prices)
                && prices.contains_key(instance.linux_on_demand@[i].0@)
                && prices[instance.linux_on_demand@[i].0@]
                == instance.linux_on_demand@[i].1.number_tree())
        }),
{
    lemma_price_columns();
    lemma_columns(instance, "price_region"@);
    lemma_columns(instance, "linux_ondemand_usd_per_hour"@);
    lemma_columns(instance, "linux_on_demand"@);
    lemma_price_fields(instance.linux_on_demand@, i);
    reveal(with_field);
    reveal_strlit("price_region");
    reveal_strlit("linux_ondemand_usd_per_hour");
    reveal_strlit("linux_on_demand");
    assert("price_region"@.len() == 12 && "linux_ondemand_usd_per_hour"@.len() == 27
        && "linux_on_demand"@.len() == 15);
}

proof fn lemma_price_fields(prices: Seq<(String, Measure)>, i: int)
    requires
        0 <= i < prices.len(),
        forall|a: int, b: int|
            0 <= a < b < prices.len() ==> (#[trigger] prices[a]).0@ != (#[trigger] prices[b]).0@,
    ensures
        price_fields(prices).contains_key(prices[i].0@),
        price_fields(prices)[prices[i].0@] == prices[i].1.number_tree(),
    decreases prices.len(),
{
    if i < prices.len() - 1 {
        let rest = prices.drop_last();
        assert forall|a: int, b: int| 0 <= a < b < rest.len() implies (#[trigger] rest[a]).0@ != (
        #[trigger] rest[b]).0@ by {
            assert(prices[a].0@ != prices[b].0@);
        }
        assert(rest[i] == prices[i]);
        lemma_price_fields(rest, i);
        assert(prices[i].0@ != prices[prices.len() - 1].0@);
    }
}

/// A measure that is a whole number is shown without a fraction.
pub proof fn law_whole_measure_is_shown_whole(m: Measure, n: i64)
    requires
        measure::whole_value(m.value()) == Some(n as int),
    ensures
        measure_tree(m) == JsonTree::Number(number::signed_decimal(n as int)),
{
}

/// The disks of a type: none of its own, or their number and size, and whether
/// they are of the faster kinds.
pub proof fn law_storage_tells_disks(instance: Ec2TypeRecord)
    ensures
        instance.storage_devices is None ==> storage_text(instance) == "EBS only"@,
        instance.storage_devices matches Some(n) ==> storage_text(instance) == number::decimal(
            n as nat,
        ) + " x"@ + " "@ + (match instance.storage_size_gb {
            Some(size) => size.words() + " "@ + "GB"@,
            None => "unknown-size"@,
        }) + (if instance.storage_nvme == Some(true) {
            " "@ + "NVMe"@
        } else {
            Seq::empty()
        }) + (if instance.storage_ssd == Some(true) {
            " "@ + "SSD"@
        } else {
            Seq::empty()
        }),
{
    if let Some(n) = instance.storage_devices {
        let count = seq![number::decimal(n as nat) + " x"@];
        let size = match instance.storage_size_gb {
            Some(m) => seq![m.words(), "GB"@],
            None => seq!["unknown-size"@],
        };
        let nvme = if instance.storage_nvme == Some(true) {
            seq!["NVMe"@]
        } else {
            Seq::empty()
        };
        let ssd = if instance.storage_ssd == Some(true) {
            seq!["SSD"@]
        } else {
            Seq::empty()
        };
        let sep = " "@;
        assert(text::joined(count, sep) == count[0]);
        match instance.storage_size_gb {
            Some(m) => {
                lemma_joined_push(count, m.words(), sep);
                lemma_joined_push(count.push(m.words()), "GB"@, sep);
                assert(count + size =~= count.push(m.words()).push("GB"@));
                assert(text::joined(count + size, sep) =~= count[0] + sep + (m.words() + sep
                    + "GB"@));
            },
            None => {
                lemma_joined_push(count, "unknown-size"@, sep);
                assert(count + size =~= count.push("unknown-size"@));
            },
        }
        let first = count + size;
        lemma_joined_push(first, "NVMe"@, sep);
        assert(first + seq!["NVMe"@] =~= first.push("NVMe"@));
        assert(first + Seq::<Seq<char>>::empty() =~= first);
        let second = first + nvme;
        assert(text::joined(second, sep) =~= text::joined(first, sep) + (if instance.storage_nvme
            == Some(true) {
            sep + "NVMe"@
        } else {
            Seq::empty()
        }));
        lemma_joined_push(second, "SSD"@, sep);
        assert(second + seq!["SSD"@] =~= second.push("SSD"@));
        assert(second + Seq::<Seq<char>>::empty() =~= second);
        assert(text::joined(second + ssd, sep) =~= text::joined(second, sep) + (
        if instance.storage_ssd == Some(true) {
            sep + "SSD"@
        } else {
            Seq::empty()
        }));
    }
}

/// A text more is added after the others.
proof fn lemma_joined_push(parts: Seq<Seq<char>>, last: Seq<char>, sep: Seq<char>)
    requires
        parts.len() > 0,
    ensures
        text::joined(parts.push(last), sep) == text::joined(parts, sep) + sep + last,
{
    assert(parts.push(last).drop_last() =~= parts);
}

/// The value of a tag is that of the first tag with the key.
pub proof fn law_tag_is_found(
    before: Seq<(Option<Seq<char>>, Option<Seq<char>>)>,
    key: Seq<char>,
    value: Option<Seq<char>>,
    after: Seq<(Option<Seq<char>>, Option<Seq<char>>)>,
)
    requires
        forall|i: int| 0 <= i < before.len() ==> (#[trigger] before[i]).0 != Some(key),
    ensures
        tag_from(before + seq![(Some(key), value)] + after, key, 0) == value,
        tag_from(before, key, 0) is None,
{
    let tags = before + seq![(Some(key), value)] + after;
    lemma_tag_skips(tags, key, 0, before.len() as int);
    lemma_tag_skips(before, key, 0, before.len() as int);
}

proof fn lemma_tag_skips(
    tags: Seq<(Option<Seq<char>>, Option<Seq<char>>)>,
    key: Seq<char>,
    i: int,
    n: int,
)
    requires
        0 <= i <= n <= tags.len(),
        forall|k: int| 0 <= k < n ==> (#[trigger] tags[k]).0 != Some(key),
    ensures
        tag_from(tags, key, i) == tag_from(tags, key, n),
    decreases n - i,
{
    if i < n {
        lemma_tag_skips(tags, key, i + 1, n);
    }
}

/// A command on instances names those of its words, one at least, and only checks
/// where either form of the flag is given.
pub proof fn law_instances_are_named(args: Seq<Seq<char>>)
    ensures
        common::positionals(args).len() > 0 ==> instances_named(args) == Ok::<
            Seq<Seq<char>>,
            Failure,
        >(common::positionals(args)),
        common::positionals(args).len() == 0 ==> instances_named(args) matches Err(
            Failure::Usage(_),
        ),
        args.contains("--dry-run"@) ==> only_checks(args),
        args.contains("--dryrun"@) ==> only_checks(args),
        !args.contains("--dry-run"@) && !args.contains("--dryrun"@) ==> !only_checks(args),
{
}

/// The region of a session is that of the command line, else that of the
/// environment, else its default, else the first region of AWS.
pub proof fn law_session_region_is_found(
    global: Option<Seq<char>>,
    variable: Option<Seq<char>>,
    default_variable: Option<Seq<char>>,
)
    ensures
        session_region(global, variable, default_variable) == (if global is Some {
            global->Some_0
        } else if variable is Some {
            variable->Some_0
        } else if default_variable is Some {
            default_variable->Some_0
        } else {
            "us-east-1"@
        }),
{
}

/// The row of an instance shows each thing that is known of it.
pub proof fn law_instance_row_shows_it(info: InstanceInfo)
    ensures
        output::shows(
            instance_tree(info),
            "instance_id"@,
            output::written_text(info.instance_id.deep_view()),
        ),
        output::shows(
            instance_tree(info),
            "name"@,
            output::written_text(tag_from(info.tags.deep_view(), "Name"@, 0)),
        ),
        output::shows(instance_tree(info), "state"@, output::written_text(info.state.deep_view())),
        output::shows(
            instance_tree(info),
            "instance_type"@,
            output::written_text(info.instance_type.deep_view()),
        ),
        output::shows(
            instance_tree(info),
            "private_ip"@,
            output::written_text(info.private_ip.deep_view()),
        ),
        output::shows(
            instance_tree(info),
            "public_ip"@,
            output::written_text(info.public_ip.deep_view()),
        ),
        output::shows(instance_tree(info), "az"@, output::written_text(info.az.deep_view())),
        output::shows(
            instance_tree(info),
            "image_id"@,
            output::written_text(info.image_id.deep_view()),
        ),
        output::shows(
            instance_tree(info),
            "key_name"@,
            output::written_text(info.key_name.deep_view()),
        ),
        output::shows(
            instance_tree(info),
            "launch_time"@,
            output::written_text(info.launch_time.deep_view()),
        ),
{
    reveal_strlit("instance_id");
    reveal_strlit("name");
    reveal_strlit("state");
    reveal_strlit("instance_type");
    reveal_strlit("private_ip");
    reveal_strlit("public_ip");
    reveal_strlit("az");
    reveal_strlit("image_id");
    reveal_strlit("key_name");
    reveal_strlit("launch_time");
    assert("instance_id"@.len() == 11);
    assert("name"@.len() == 4);
    assert("state"@.len() == 5);
    assert("instance_type"@.len() == 13);
    assert("private_ip"@.len() == 10);
    assert("public_ip"@.len() == 9);
    assert("az"@.len() == 2);
    assert("image_id"@.len() == 8);
    assert("key_name"@.len() == 8);
    assert("launch_time"@.len() == 11);
    assert("instance_id"@[0] != "launch_time"@[0]);
    assert("image_id"@[0] != "key_name"@[0]);
    let fields = instance_tree(info)->Object_0;
    output::lemma_shows(fields, "instance_id"@);
    output::lemma_shows(fields, "name"@);
    output::lemma_shows(fields, "state"@);
    output::lemma_shows(fields, "instance_type"@);
    output::lemma_shows(fields, "private_ip"@);
    output::lemma_shows(fields, "public_ip"@);
    output::lemma_shows(fields, "az"@);
    output::lemma_shows(fields, "image_id"@);
    output::lemma_shows(fields, "key_name"@);
    output::lemma_shows(fields, "launch_time"@);
}

/// The row of a change of state shows the instance and both states.
pub proof fn law_state_change_row_shows_it(change: StateChange)
    ensures
        output::shows(
            change_tree(change),
            "instance_id"@,
            output::written_text(change.instance_id.deep_view()),
        ),
        output::shows(
            change_tree(change),
            "previous_state"@,
            output::written_text(change.previous_state.deep_view()),
        ),
        output::shows(
            change_tree(change),
            "current_state"@,
            output::written_text(change.current_state.deep_view()),
        ),
{
    reveal_strlit("instance_id");
    reveal_strlit("previous_state");
    reveal_strlit("current_state");
    assert("instance_id"@.len() == 11);
    assert("previous_state"@.len() == 14);
    assert("current_state"@.len() == 13);
    let fields = change_tree(change)->Object_0;
    output::lemma_shows(fields, "instance_id"@);
    output::lemma_shows(fields, "previous_state"@);
    output::lemma_shows(fields, "current_state"@);
}

/// The row of an image shows each thing that is known of it.
pub proof fn law_image_row_shows_it(image: ImageInfo)
    ensures
        output::shows(
            image_tree(image),
            "image_id"@,
            output::written_text(image.image_id.deep_view()),
        ),
        output::shows(image_tree(image), "name"@, output::written_text(image.name.deep_view())),
        output::shows(
            image_tree(image),
            "description"@,
            output::written_text(image.description.deep_view()),
        ),
        output::shows(image_tree(image), "state"@, output::written_text(image.state.deep_view())),
        output::shows(
            image_tree(image),
            "owner_id"@,
            output::written_text(image.owner_id.deep_view()),
        ),
        output::shows(
            image_tree(image),
            "creation_date"@,
            output::written_text(image.creation_date.deep_view()),
        ),
{
    reveal_strlit("image_id");
    reveal_strlit("name");
    reveal_strlit("description");
    reveal_strlit("state");
    reveal_strlit("owner_id");
    reveal_strlit("creation_date");
    assert("image_id"@.len() == 8);
    assert("name"@.len() == 4);
    assert("description"@.len() == 11);
    assert("state"@.len() == 5);
    assert("owner_id"@.len() == 8);
    assert("creation_date"@.len() == 13);
    assert("image_id"@[0] != "owner_id"@[0]);
    let fields = image_tree(image)->Object_0;
    output::lemma_shows(fields, "image_id"@);
    output::lemma_shows(fields, "name"@);
    output::lemma_shows(fields, "description"@);
    output::lemma_shows(fields, "state"@);
    output::lemma_shows(fields, "owner_id"@);
    output::lemma_shows(fields, "creation_date"@);
}

/// The row of a reboot shows the instance.
pub proof fn law_reboot_row_shows_it(id: Seq<char>)
    ensures
        output::shows(reboot_tree(id), "instance_id"@, id),
        output::shows(reboot_tree(id), "action"@, "reboot"@),
{
    reveal_strlit("instance_id");
    reveal_strlit("action");
    assert("instance_id"@.len() == 11);
    assert("action"@.len() == 6);
    let fields = reboot_tree(id)->Object_0;
    output::lemma_shows(fields, "instance_id"@);
    output::lemma_shows(fields, "action"@);
}

/// A change is of all the instances that the words name, in order; it is only
/// checked, or forced, where the flag for that is given.
pub proof fn law_change_is_as_asked(words: Seq<Seq<char>>, r: Result<StatePlan, AwlError>)
    requires
        common::are_words(words),
    ensures
        words.len() > 0 && change_asked(words, r) ==> (r matches Ok(plan) && plan.ids.deep_view()
            == words && !plan.dry_run && !plan.force),
        words.len() > 0 && change_asked(words.push("--dry-run"@), r) ==> (r matches Ok(plan)
            && plan.ids.deep_view() == words && plan.dry_run && !plan.force),
        words.len() > 0 && change_asked(words.push("--dryrun"@), r) ==> (r matches Ok(plan)
            && plan.ids.deep_view() == words && plan.dry_run && !plan.force),
        words.len() > 0 && change_asked(words.push("--force"@), r) ==> (r matches Ok(plan)
            && plan.ids.deep_view() == words && !plan.dry_run && plan.force),
        words.len() == 0 && change_asked(words, r) ==> (r matches Err(error) && error@ is Usage),
{
    reveal_strlit("--dry-run");
    reveal_strlit("--dryrun");
    reveal_strlit("--force");
    assert("--dry-run"@.len() == 9);
    assert("--dryrun"@.len() == 8);
    assert("--force"@.len() == 7);
    common::law_flags_take_no_value();
    common::law_words_give_no_option(words);
    common::law_flag_among_words(words, "--dry-run"@);
    common::law_flag_among_words(words, "--dryrun"@);
    common::law_flag_among_words(words, "--force"@);
}

/// The record of a console shows what was written, by which instance and when.
pub proof fn law_console_row_shows_it(
    instance_id: Option<Seq<char>>,
    timestamp: Option<Seq<char>>,
    written: Option<Seq<char>>,
)
    ensures
        output::shows(
            console_tree(instance_id, timestamp, written),
            "instance_id"@,
            output::written_text(instance_id),
        ),
        output::shows(
            console_tree(instance_id, timestamp, written),
            "timestamp"@,
            output::written_text(timestamp),
        ),
        output::shows(
            console_tree(instance_id, timestamp, written),
            "output"@,
            output::written_text(written),
        ),
{
    reveal_strlit("instance_id");
    reveal_strlit("timestamp");
    reveal_strlit("output");
    assert("instance_id"@.len() == 11);
    assert("timestamp"@.len() == 9);
    assert("output"@.len() == 6);
    let fields = console_tree(instance_id, timestamp, written)->Object_0;
    output::lemma_shows(fields, "instance_id"@);
    output::lemma_shows(fields, "timestamp"@);
    output::lemma_shows(fields, "output"@);
}

/// A session is opened in the region, at its endpoint, for the profile and with the
/// instance that is named.
pub proof fn law_session_is_with_the_instance(
    session: Session,
    region: Seq<char>,
    profile: Seq<char>,
    instance_id: Seq<char>,
    target: JsonTree,
)
    requires
        target->Object_0 == Map::<Seq<char>, JsonTree>::empty().insert(
            "Target"@,
            JsonTree::Text(instance_id),
        ),
        target is Object,
    ensures
        ({
            let words = session_words(session, region, Some(profile), instance_id);
            &&& words.len() == 6
            &&& words[1] == region
            &&& words[2] == "StartSession"@
            &&& words[3] == profile
            &&& words[4] == json::json_text(target)
            &&& words[5] == "https://ssm."@ + words[1] + ".amazonaws.com"@
        }),
        session_words(session, region, None, instance_id)[3].len() == 0,
{
    assert(target->Object_0 =~= map!["Target"@ => JsonTree::Text(instance_id)]);
}

/// What is told of a session is its name, its token and its stream.
pub proof fn law_session_is_named(
    session_id: Option<Seq<char>>,
    token: Option<Seq<char>>,
    stream_url: Option<Seq<char>>,
)
    ensures
        output::shows(
            session_tree(session_id, token, stream_url),
            "SessionId"@,
            output::written_text(session_id),
        ),
        output::shows(
            session_tree(session_id, token, stream_url),
            "TokenValue"@,
            output::written_text(token),
        ),
        output::shows(
            session_tree(session_id, token, stream_url),
            "StreamUrl"@,
            output::written_text(stream_url),
        ),
{
    reveal_strlit("SessionId");
    reveal_strlit("TokenValue");
    reveal_strlit("StreamUrl");
    assert("SessionId"@.len() == 9);
    assert("TokenValue"@.len() == 10);
    assert("StreamUrl"@.len() == 9);
    assert("SessionId"@[1] != "StreamUrl"@[1]);
    let fields = session_tree(session_id, token, stream_url)->Object_0;
    output::lemma_shows(fields, "SessionId"@);
    output::lemma_shows(fields, "TokenValue"@);
    output::lemma_shows(fields, "StreamUrl"@);
}

/// There is a record for each of the instances, in order.
pub proof fn law_instance_rows_are_all_shown(instances: Seq<InstanceInfo>, i: int)
    requires
        0 <= i < instances.len(),
    ensures
        instances_shown(instances) matches Shown::Many(rows) && rows.len() == instances.len() && rows[i]
            == instance_tree(instances[i]),
{
}

/// There is a record for each of the changes, in order.
pub proof fn law_state_changes_are_all_shown(changes: Seq<StateChange>, i: int)
    requires
        0 <= i < changes.len(),
    ensures
        changes_shown(changes) matches Shown::Many(rows) && rows.len() == changes.len() && rows[i]
            == change_tree(changes[i]),
{
}

/// There is a record for each of the reboots, in order.
pub proof fn law_reboot_rows_are_all_shown(ids: Seq<Seq<char>>, i: int)
    requires
        0 <= i < ids.len(),
    ensures
        reboots_shown(ids) matches Shown::Many(rows) && rows.len() == ids.len() && rows[i]
            == reboot_tree(ids[i]),
{
}

/// There is a record for each of the images, in order.
pub proof fn law_image_rows_are_all_shown(images: Seq<ImageInfo>, i: int)
    requires
        0 <= i < images.len(),
    ensures
        images_shown(images) matches Shown::Many(rows) && rows.len() == images.len() && rows[i]
            == image_tree(images[i]),
{
}

} // verus!
