//! The configured basket: sectors of index symbols, benchmark symbols and
//! the settings of the index.

use crate::units::FULL_PERCENT;
use vstd::prelude::*;

verus! {

/// The settings of the index.
#[derive(Debug, Clone, Copy)]
pub struct Settings {
    /// The index value that stands for no change since the base prices, in millionths.
    pub base_value: u64,
    /// The share of capitalisation weighting in the blend, in percent.
    pub market_cap_weight_pct: u32,
}

/// A named group of index symbols.
#[derive(Debug, Clone)]
pub struct Sector {
    pub label: String,
    pub symbols: Vec<String>,
}

/// The symbols that are tracked beside the index and carry no weight in it.
#[derive(Debug)]
pub struct Benchmarks {
    pub symbols: Vec<String>,
}

/// A sector under its key.
#[derive(Debug)]
pub struct SectorEntry {
    pub key: String,
    pub sector: Sector,
}

#[derive(Debug)]
pub struct StocksConfig {
    pub settings: Settings,
    /// The sectors, each once, in the order in which symbols are listed.
    pub sectors: Vec<SectorEntry>,
    pub benchmarks: Benchmarks,
}

/// The symbols of a sequence of sectors, sector after sector.
pub open spec fn sector_symbols(sectors: Seq<SectorEntry>) -> Seq<String>
    decreases sectors.len(),
{
    if sectors.len() == 0 {
        Seq::empty()
    } else {
        sector_symbols(sectors.drop_last()) + sectors.last().sector.symbols@
    }
}

/// No two sectors have the same key.
pub open spec fn distinct_keys(sectors: Seq<SectorEntry>) -> bool {
    forall|i: int, j: int|
        0 <= i < j < sectors.len() ==> (#[trigger] sectors[i]).key@ != (#[trigger] sectors[j]).key@
}

/// Appends copies of the strings of `from` to `to`.
pub fn append_symbols(to: &mut Vec<String>, from: &Vec<String>)
    ensures
        final(to)@ == old(to)@ + from@,
{
    let n = from.len();
    let mut i: usize = 0;
    while i < n
        invariant
            n == from.len(),
            i <= n,
            to@ == old(to)@ + from@.take(i as int),
        decreases n - i,
    {
        to.push(from[i].clone());
        proof {
            assert(to@ =~= old(to)@ + from@.take(i + 1));
        }
        i = i + 1;
    }
    proof {
        assert(from@.take(n as int) =~= from@);
    }
}

impl StocksConfig {
    /// The index symbols: those of every sector, without the benchmarks.
    pub open spec fn index_symbol_seq(&self) -> Seq<String> {
        sector_symbols(self.sectors@)
    }

    /// All symbols: the index symbols, then the benchmarks.
    pub open spec fn all_symbol_seq(&self) -> Seq<String> {
        self.index_symbol_seq() + self.benchmarks.symbols@
    }

    /// The configuration is that of an index: capitalisation has a share of
    /// at most the whole blend, and every sector has a key of its own.
    pub open spec fn valid(&self) -> bool {
        &&& self.settings.market_cap_weight_pct <= FULL_PERCENT
        &&& distinct_keys(self.sectors@)
    }

    /// Tells whether the configuration is that of an index.
    pub fn is_valid(&self) -> (r: bool)
        ensures
            r == self.valid(),
    {
        if self.settings.market_cap_weight_pct > FULL_PERCENT {
            return false;
        }
        let n = self.sectors.len();
        let mut j: usize = 0;
        while j < n
            invariant
                n == self.sectors.len(),
                j <= n,
                forall|a: int, b: int|
                    0 <= a < b < j ==> (#[trigger] self.sectors[a]).key@ != (
                    #[trigger] self.sectors[b]).key@,
            decreases n - j,
        {
            let mut i: usize = 0;
            while i < j
                invariant
                    n == self.sectors.len(),
                    j < n,
                    i <= j,
                    forall|a: int| 0 <= a < i ==> (#[trigger] self.sectors[a]).key@ != self.sectors[j as int].key@,
                decreases j - i,
            {
                if self.sectors[i].key == self.sectors[j].key {
                    return false;
                }
                i = i + 1;
            }
            j = j + 1;
        }
        true
    }

    /// All index symbols (excludes benchmarks).
    pub fn index_symbols(&self) -> (symbols: Vec<String>)
        ensures
            symbols@ == self.index_symbol_seq(),
    {
        let n = self.sectors.len();
        let mut symbols: Vec<String> = Vec::new();
        let mut i: usize = 0;
        while i < n
            invariant
                n == self.sectors.len(),
                i <= n,
                symbols@ == sector_symbols(self.sectors@.take(i as int)),
            decreases n - i,
        {
            proof {
                assert(self.sectors@.take(i + 1).drop_last() =~= self.sectors@.take(i as int));
            }
            append_symbols(&mut symbols, &self.sectors[i].sector.symbols);
            i = i + 1;
        }
        proof {
            assert(self.sectors@.take(n as int) =~= self.sectors@);
        }
        symbols
    }

    /// All symbols including benchmarks.
    pub fn all_symbols(&self) -> (symbols: Vec<String>)
        ensures
            symbols@ == self.all_symbol_seq(),
    {
        let mut symbols = self.index_symbols();
        append_symbols(&mut symbols, &self.benchmarks.symbols);
        symbols
    }

    /// The share of capitalisation weighting in the blend, in percent.
    pub fn mcap_pct(&self) -> (pct: u32)
        ensures
            pct == self.settings.market_cap_weight_pct,
    {
        self.settings.market_cap_weight_pct
    }
}

} // verus!
