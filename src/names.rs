//! Display names for the tables and indexes that scan nodes refer to.
use vstd::prelude::*;
use vstd::string::StringExecFns;

verus! {

/// The text given for a table or index whose name cannot be found.
pub open spec fn unknown_text() -> Seq<char> {
    seq!['U', 'N', 'K', 'N', 'O', 'W', 'N']
}

/// The tables a query reads, in range-table order. A scan refers to an
/// entry by its one-based position, as the planner numbers them.
pub struct RangeTable {
    pub aliases: Vec<String>,
}

impl RangeTable {
    pub open spec fn view(&self) -> Seq<Seq<char>> {
        self.aliases@.map_values(|a: String| a@)
    }
}

/// The alias of range-table entry `r` (one-based), or the unknown text
/// when there is no such entry.
pub open spec fn alias_of(rt: Seq<Seq<char>>, r: int) -> Seq<char> {
    if 1 <= r <= rt.len() {
        rt[r - 1]
    } else {
        unknown_text()
    }
}

/// How index identifiers are named. `hook` holds the names that an
/// installed override gives, and is consulted first; `catalog` holds the
/// names of the default catalog lookup. In each, the first pair with a
/// given identifier is the one that counts.
pub struct IndexCatalog {
    pub hook: Vec<(u32, String)>,
    pub catalog: Vec<(u32, String)>,
}

/// The name that a table of identifier and name pairs gives `id`: the name
/// of its first pair with that identifier.
pub open spec fn table_lookup(t: Seq<(u32, Seq<char>)>, id: u32) -> Option<Seq<char>>
    decreases t.len(),
{
    if t.len() == 0 {
        None
    } else if t[0].0 == id {
        Some(t[0].1)
    } else {
        table_lookup(t.drop_first(), id)
    }
}

pub open spec fn pairs_view(t: Seq<(u32, String)>) -> Seq<(u32, Seq<char>)> {
    t.map_values(|p: (u32, String)| (p.0, p.1@))
}

impl IndexCatalog {
    pub open spec fn hook_view(&self) -> Seq<(u32, Seq<char>)> {
        pairs_view(self.hook@)
    }

    pub open spec fn catalog_view(&self) -> Seq<(u32, Seq<char>)> {
        pairs_view(self.catalog@)
    }
}

/// The name of index `id`: the override's, when it gives one; else the
/// catalog's; else the unknown text.
pub open spec fn index_name_of(
    hook: Seq<(u32, Seq<char>)>,
    catalog: Seq<(u32, Seq<char>)>,
    id: u32,
) -> Seq<char> {
    match table_lookup(hook, id) {
        Some(n) => n,
        None => match table_lookup(catalog, id) {
            Some(n) => n,
            None => unknown_text(),
        },
    }
}

proof fn lemma_lookup_step(t: Seq<(u32, Seq<char>)>, i: int, id: u32)
    requires
        0 <= i < t.len(),
        forall|j: int| 0 <= j < i ==> t[j].0 != id,
    ensures
        table_lookup(t, id) == table_lookup(t.subrange(i, t.len() as int), id),
    decreases i,
{
    if i > 0 {
        lemma_lookup_step(t.drop_first(), i - 1, id);
        assert(t.drop_first().subrange(i - 1, t.len() - 1) =~= t.subrange(i, t.len() as int));
    } else {
        assert(t.subrange(0, t.len() as int) =~= t);
    }
}

proof fn lemma_lookup_absent(t: Seq<(u32, Seq<char>)>, id: u32)
    requires
        forall|j: int| 0 <= j < t.len() ==> t[j].0 != id,
    ensures
        table_lookup(t, id) == None::<Seq<char>>,
    decreases t.len(),
{
    if t.len() > 0 {
        lemma_lookup_absent(t.drop_first(), id);
    }
}

fn find_name(t: &Vec<(u32, String)>, id: u32) -> (r: Option<String>)
    ensures
        match r {
            Some(s) => table_lookup(pairs_view(t@), id) == Some(s@),
            None => table_lookup(pairs_view(t@), id) == None::<Seq<char>>,
        },
{
    let ghost v = pairs_view(t@);
    let mut i: usize = 0;
    while i < t.len()
        invariant
            i <= t.len(),
            v == pairs_view(t@),
            forall|j: int| 0 <= j < i ==> v[j].0 != id,
        decreases t.len() - i,
    {
        if t[i].0 == id {
            proof {
                lemma_lookup_step(v, i as int, id);
                assert(v.subrange(i as int, v.len() as int)[0] == v[i as int]);
            }
            return Some(t[i].1.clone());
        }
        i = i + 1;
    }
    proof {
        lemma_lookup_absent(v, id);
    }
    None
}

/// The alias of the table that a scan reads, by its range-table reference
/// (one-based); `UNKNOWN` where the range table holds no such entry.
pub fn get_alias(scan_target_ref: u32, rt: &RangeTable) -> (r: String)
    ensures
        r@ == alias_of(rt@, scan_target_ref as int),
{
    if 1 <= scan_target_ref && (scan_target_ref as usize) <= rt.aliases.len() {
        rt.aliases[(scan_target_ref - 1) as usize].clone()
    } else {
        proof {
            reveal_strlit("UNKNOWN");
        }
        String::from_str("UNKNOWN")
    }
}

/// The display name of an index: the override's name when it gives one,
/// else the catalog's, else `UNKNOWN`.
pub fn get_index(indexid: u32, names: &IndexCatalog) -> (r: String)
    ensures
        r@ == index_name_of(names.hook_view(), names.catalog_view(), indexid),
{
    match find_name(&names.hook, indexid) {
        Some(n) => n,
        None => match find_name(&names.catalog, indexid) {
            Some(n) => n,
            None => {
                proof {
                    reveal_strlit("UNKNOWN");
                }
                String::from_str("UNKNOWN")
            },
        },
    }
}

} // verus!
