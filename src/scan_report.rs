//! The report of which site holds each installed package: its records, its
//! table rows, and its delimited export.

use vstd::prelude::*;

use crate::texts;

use crate::text_order::lemma_text_le_total;
use crate::text_order::lemma_text_le_trans;
use crate::text_order::text_le;
use crate::text_order::text_le_exec;

verus! {

/// An installed package: its name and its version.
pub struct Package {
    pub name: String,
    pub version: String,
}

impl View for Package {
    type V = (Seq<char>, Seq<char>);

    open spec fn view(&self) -> (Seq<char>, Seq<char>) {
        (self.name@, self.version@)
    }
}

/// The identifier of a package: its name, a dash, its version.
pub open spec fn package_id(p: (Seq<char>, Seq<char>)) -> Seq<char> {
    p.0 + "-"@ + p.1
}

impl Package {
    pub fn new(name: &str, version: &str) -> (r: Package)
        ensures
            r@ == (name@, version@),
    {
        Package { name: String::from_str(name), version: String::from_str(version) }
    }

    /// The identifier of the package.
    pub fn to_text(&self) -> (r: String)
        ensures
            r@ == package_id(self@),
    {
        self.name.clone().concat("-").concat(self.version.as_str())
    }

    pub fn copy(&self) -> (r: Package)
        ensures
            r@ == self@,
    {
        Package { name: self.name.clone(), version: self.version.clone() }
    }
}

fn copy_texts(v: &Vec<String>) -> (r: Vec<String>)
    ensures
        texts(r@) == texts(v@),
{
    let mut r: Vec<String> = Vec::new();
    let mut i: usize = 0;
    while i < v.len()
        invariant
            0 <= i <= v@.len(),
            texts(r@) == texts(v@).take(i as int),
        decreases v@.len() - i,
    {
        let ghost before = texts(r@);
        r.push(v[i].clone());
        assert(texts(r@) =~= before.push(v@[i as int]@));
        assert(texts(v@).take(i + 1) =~= texts(v@).take(i as int).push(v@[i as int]@));
        i = i + 1;
    }
    assert(texts(v@).take(v@.len() as int) =~= texts(v@));
    r
}

/// Where a table is shown: on a terminal, or as delimited text.
#[derive(Clone, Copy, PartialEq, Eq, Debug, Structural)]
pub enum RowableContext {
    Tty,
    Delimited,
}

/// A package and the sites that hold it.
pub struct ScanRecord {
    pub package: Package,
    pub sites: Vec<String>,
}

impl View for ScanRecord {
    type V = ((Seq<char>, Seq<char>), Seq<Seq<char>>);

    open spec fn view(&self) -> ((Seq<char>, Seq<char>), Seq<Seq<char>>) {
        (self.package@, texts(self.sites@))
    }
}

/// The rows of a record: one per site, the package identifier beside it; on a
/// terminal only the first row names the package.
pub open spec fn rows_spec(
    rec: ((Seq<char>, Seq<char>), Seq<Seq<char>>),
    context: RowableContext,
) -> Seq<Seq<Seq<char>>> {
    Seq::new(
        rec.1.len(),
        |i: int|
            seq![
                if i > 0 && context == RowableContext::Tty {
                    Seq::empty()
                } else {
                    package_id(rec.0)
                },
                rec.1[i],
            ],
    )
}

/// The texts of a table of strings.
pub open spec fn table_texts(rows: Seq<Vec<String>>) -> Seq<Seq<Seq<char>>> {
    rows.map_values(|r: Vec<String>| texts(r@))
}

impl ScanRecord {
    pub fn new(package: Package, sites: Vec<String>) -> (r: ScanRecord)
        ensures
            r@ == (package@, texts(sites@)),
    {
        ScanRecord { package, sites }
    }

    /// The table rows of this record.
    pub fn to_rows(&self, context: RowableContext) -> (r: Vec<Vec<String>>)
        ensures
            table_texts(r@) == rows_spec(self@, context),
    {
        let mut rows: Vec<Vec<String>> = Vec::new();
        let pkg_display = self.package.to_text();
        let is_tty = context == RowableContext::Tty;
        let mut i: usize = 0;
        while i < self.sites.len()
            invariant
                0 <= i <= self.sites@.len(),
                pkg_display@ == package_id(self.package@),
                is_tty == (context == RowableContext::Tty),
                table_texts(rows@) == rows_spec(self@, context).take(i as int),
            decreases self.sites@.len() - i,
        {
            let p = if i > 0 && is_tty {
                String::new()
            } else {
                pkg_display.clone()
            };
            let ghost before = table_texts(rows@);
            let row = vec![p, self.sites[i].clone()];
            assert(texts(row@) =~= rows_spec(self@, context)[i as int]);
            rows.push(row);
            assert(table_texts(rows@) =~= before.push(texts(row@)));
            assert(rows_spec(self@, context).take(i + 1) =~= rows_spec(self@, context).take(
                i as int,
            ).push(rows_spec(self@, context)[i as int]));
            i = i + 1;
        }
        assert(rows_spec(self@, context).take(self.sites@.len() as int) =~= rows_spec(
            self@,
            context,
        ));
        rows
    }
}

/// The views of a vector of records.
pub open spec fn record_views(v: Seq<ScanRecord>) -> Seq<((Seq<char>, Seq<char>), Seq<Seq<char>>)> {
    v.map_values(|r: ScanRecord| r@)
}

/// Records in ascending order of package identifier.
pub open spec fn sorted_by_id(v: Seq<((Seq<char>, Seq<char>), Seq<Seq<char>>)>) -> bool {
    forall|i: int, j: int| 0 <= i < j < v.len() ==> text_le(package_id(#[trigger] v[i].0), package_id(#[trigger] v[j].0))
}

/// The report: one record per package, in ascending order of package
/// identifier.
pub struct ScanReport {
    records: Vec<ScanRecord>,
}

impl View for ScanReport {
    type V = Seq<((Seq<char>, Seq<char>), Seq<Seq<char>>)>;

    closed spec fn view(&self) -> Seq<((Seq<char>, Seq<char>), Seq<Seq<char>>)> {
        record_views(self.records@)
    }
}

/// The delimited lines of one record: its identifier and a site, for each
/// site.
pub open spec fn record_lines(rec: ((Seq<char>, Seq<char>), Seq<Seq<char>>), delim: Seq<char>) -> Seq<Seq<char>> {
    rec.1.map_values(|s: Seq<char>| package_id(rec.0) + delim + s)
}

/// The delimited lines of records, in order.
pub open spec fn records_lines(rs: Seq<((Seq<char>, Seq<char>), Seq<Seq<char>>)>, delim: Seq<char>) -> Seq<Seq<char>>
    decreases rs.len(),
{
    if rs.len() == 0 {
        Seq::empty()
    } else {
        records_lines(rs.drop_last(), delim) + record_lines(rs.last(), delim)
    }
}

/// A header line naming the two columns, then the lines of the records.
pub open spec fn delimited_lines(rs: Seq<((Seq<char>, Seq<char>), Seq<Seq<char>>)>, delim: Seq<char>) -> Seq<Seq<char>> {
    seq!["Package"@ + delim + "Site"@] + records_lines(rs, delim)
}

/// Inserts `rec` into the sorted `out`, after every record whose identifier
/// comes no later than its own.
fn insert_sorted(out: &mut Vec<ScanRecord>, rec: ScanRecord)
    requires
        sorted_by_id(record_views(old(out)@)),
    ensures
        sorted_by_id(record_views(final(out)@)),
        record_views(final(out)@).to_multiset() == record_views(old(out)@).to_multiset().insert(rec@),
{
    let key = rec.package.to_text();
    let ghost kx = package_id(rec.package@);
    let ghost v0 = record_views(out@);
    let mut p: usize = 0;
    while p < out.len() && text_le_exec(out[p].package.to_text().as_str(), key.as_str())
        invariant
            0 <= p <= out@.len(),
            v0 == record_views(out@),
            key@ == kx,
            forall|k: int| 0 <= k < p ==> text_le(package_id(#[trigger] v0[k].0), kx),
        decreases out@.len() - p,
    {
        p = p + 1;
    }
    let ghost x = rec@;
    out.insert(p, rec);
    proof {
        let v1 = record_views(out@);
        assert(v1 =~= v0.insert(p as int, x));
        vstd::seq_lib::to_multiset_insert(v0, p as int, x);
        if p < v0.len() {
            lemma_text_le_total(kx, package_id(v0[p as int].0));
        }
        assert forall|i: int, j: int| 0 <= i < j < v1.len() implies text_le(package_id(#[trigger] v1[i].0), package_id(#[trigger] v1[j].0)) by {
            if j < p {
                assert(v1[i] == v0[i] && v1[j] == v0[j]);
            } else if j == p {
                assert(v1[i] == v0[i]);
            } else if i < p {
                assert(v1[i] == v0[i] && v1[j] == v0[j - 1]);
                lemma_text_le_total(kx, package_id(v0[p as int].0));
                if j - 1 > p {
                    lemma_text_le_trans(kx, package_id(v0[p as int].0), package_id(v0[j - 1].0));
                }
                lemma_text_le_trans(package_id(v0[i].0), kx, package_id(v0[j - 1].0));
            } else if i == p {
                assert(v1[j] == v0[j - 1]);
                if j - 1 > p {
                    lemma_text_le_trans(kx, package_id(v0[p as int].0), package_id(v0[j - 1].0));
                }
            } else {
                assert(v1[i] == v0[i - 1] && v1[j] == v0[j - 1]);
            }
        }
    }
}

/// The view of a package-to-sites pair.
pub open spec fn pair_view(e: (Package, Vec<String>)) -> ((Seq<char>, Seq<char>), Seq<Seq<char>>) {
    (e.0@, texts(e.1@))
}

/// Whether the package-to-sites list has an entry for package `p`.
pub open spec fn has_package(m: Seq<(Package, Vec<String>)>, p: (Seq<char>, Seq<char>)) -> bool {
    exists|i: int| 0 <= i < m.len() && (#[trigger] m[i]).0@ == p
}

/// The sites of the first entry for package `p`.
pub open spec fn sites_of(m: Seq<(Package, Vec<String>)>, p: (Seq<char>, Seq<char>)) -> Seq<Seq<char>>
    decreases m.len(),
{
    if m.len() == 0 {
        Seq::empty()
    } else if m[0].0@ == p {
        texts(m[0].1@)
    } else {
        sites_of(m.drop_first(), p)
    }
}

fn package_eq(a: &Package, b: &Package) -> (r: bool)
    ensures
        r == (a@ == b@),
{
    a.name == b.name && a.version == b.version
}

/// The sites of the first entry for `p`.
fn lookup_sites(m: &Vec<(Package, Vec<String>)>, p: &Package) -> (r: Vec<String>)
    requires
        has_package(m@, p@),
    ensures
        texts(r@) == sites_of(m@, p@),
{
    let mut i: usize = 0;
    assert(m@.skip(0) =~= m@);
    while i < m.len()
        invariant
            0 <= i <= m@.len(),
            has_package(m@, p@),
            forall|k: int| 0 <= k < i ==> m@[k].0@ != p@,
            sites_of(m@, p@) == sites_of(m@.skip(i as int), p@),
        decreases m@.len() - i,
    {
        let ghost rest = m@.skip(i as int);
        assert(rest[0] == m@[i as int]);
        if package_eq(&m[i].0, p) {
            return copy_texts(&m[i].1);
        }
        assert(rest.drop_first() =~= m@.skip(i + 1));
        i = i + 1;
    }
    proof {
        let k = choose|k: int| 0 <= k < m@.len() && (#[trigger] m@[k]).0@ == p@;
        assert(m@[k].0@ != p@);
    }
    Vec::new()
}

impl ScanReport {
    /// A report of every entry of a package-to-sites list, ordered by
    /// package identifier.
    pub fn from_package_to_sites(package_to_sites: &Vec<(Package, Vec<String>)>) -> (r: ScanReport)
        ensures
            sorted_by_id(r@),
            r@.to_multiset() == package_to_sites@.map_values(|e: (Package, Vec<String>)| pair_view(e)).to_multiset(),
    {
        let ghost all = package_to_sites@.map_values(|e: (Package, Vec<String>)| pair_view(e));
        let mut records: Vec<ScanRecord> = Vec::new();
        let mut i: usize = 0;
        assert(record_views(records@) =~= all.take(0));
        while i < package_to_sites.len()
            invariant
                0 <= i <= package_to_sites@.len(),
                all == package_to_sites@.map_values(|e: (Package, Vec<String>)| pair_view(e)),
                sorted_by_id(record_views(records@)),
                record_views(records@).to_multiset() == all.take(i as int).to_multiset(),
            decreases package_to_sites@.len() - i,
        {
            let (package, sites) = &package_to_sites[i];
            let record = ScanRecord::new(package.copy(), copy_texts(sites));
            insert_sorted(&mut records, record);
            proof {
                assert(all.take(i + 1) =~= all.take(i as int).push(all[i as int]));
                vstd::seq_lib::to_multiset_build(all.take(i as int), all[i as int]);
            }
            i = i + 1;
        }
        assert(all.take(package_to_sites@.len() as int) =~= all);
        ScanReport { records }
    }

    /// A report of the given packages only, each with its sites in the
    /// package-to-sites list, ordered by package identifier.
    pub fn from_packages(packages: &Vec<Package>, package_to_sites: &Vec<(Package, Vec<String>)>) -> (r: ScanReport)
        requires
            forall|i: int| 0 <= i < packages@.len() ==> has_package(package_to_sites@, #[trigger] packages@[i]@),
        ensures
            sorted_by_id(r@),
            r@.to_multiset() == packages@.map_values(|p: Package| (p@, sites_of(package_to_sites@, p@))).to_multiset(),
    {
        let ghost all = packages@.map_values(|p: Package| (p@, sites_of(package_to_sites@, p@)));
        let mut records: Vec<ScanRecord> = Vec::new();
        let mut i: usize = 0;
        assert(record_views(records@) =~= all.take(0));
        while i < packages.len()
            invariant
                0 <= i <= packages@.len(),
                forall|i: int| 0 <= i < packages@.len() ==> has_package(package_to_sites@, #[trigger] packages@[i]@),
                all == packages@.map_values(|p: Package| (p@, sites_of(package_to_sites@, p@))),
                sorted_by_id(record_views(records@)),
                record_views(records@).to_multiset() == all.take(i as int).to_multiset(),
            decreases packages@.len() - i,
        {
            let package = &packages[i];
            let sites = lookup_sites(package_to_sites, package);
            let record = ScanRecord::new(package.copy(), sites);
            insert_sorted(&mut records, record);
            proof {
                assert(all.take(i + 1) =~= all.take(i as int).push(all[i as int]));
                vstd::seq_lib::to_multiset_build(all.take(i as int), all[i as int]);
            }
            i = i + 1;
        }
        assert(all.take(packages@.len() as int) =~= all);
        ScanReport { records }
    }

    /// The column names.
    pub fn get_header(&self) -> (r: Vec<String>)
        ensures
            texts(r@) == seq!["Package"@, "Site"@],
    {
        let r = vec![String::from_str("Package"), String::from_str("Site")];
        assert(texts(r@) =~= seq!["Package"@, "Site"@]);
        r
    }

    pub fn get_records(&self) -> (r: &Vec<ScanRecord>)
        ensures
            record_views(r@) == self@,
    {
        &self.records
    }

    /// The delimited export: a header line, then one line per package and
    /// site, in the report's order.
    pub fn to_delimited_lines(&self, delim: &str) -> (r: Vec<String>)
        ensures
            texts(r@) == delimited_lines(self@, delim@),
    {
        let mut lines: Vec<String> = Vec::new();
        lines.push(String::from_str("Package").concat(delim).concat("Site"));
        let ghost all = record_views(self.records@);
        let mut i: usize = 0;
        assert(all.take(0) =~= Seq::empty());
        assert(texts(lines@) =~= seq!["Package"@ + delim@ + "Site"@] + records_lines(all.take(0), delim@));
        while i < self.records.len()
            invariant
                0 <= i <= self.records@.len(),
                all == record_views(self.records@),
                texts(lines@) == seq!["Package"@ + delim@ + "Site"@] + records_lines(all.take(i as int), delim@),
            decreases self.records@.len() - i,
        {
            let rec = &self.records[i];
            let id = rec.package.to_text();
            let ghost start = texts(lines@);
            let mut j: usize = 0;
            while j < rec.sites.len()
                invariant
                    0 <= j <= rec.sites@.len(),
                    id@ == package_id(rec.package@),
                    texts(lines@) == start + record_lines(rec@, delim@).take(j as int),
                decreases rec.sites@.len() - j,
            {
                let ghost before = texts(lines@);
                let line = id.clone().concat(delim).concat(rec.sites[j].as_str());
                lines.push(line);
                assert(texts(lines@) =~= before.push(line@));
                assert(record_lines(rec@, delim@).take(j + 1) =~= record_lines(rec@, delim@).take(
                    j as int,
                ).push(line@));
                j = j + 1;
            }
            proof {
                assert(record_lines(rec@, delim@).take(rec.sites@.len() as int) =~= record_lines(
                    rec@,
                    delim@,
                ));
                let t = all.take(i + 1);
                assert(t.drop_last() =~= all.take(i as int));
                assert(t.last() == rec@);
                assert(texts(lines@) =~= seq!["Package"@ + delim@ + "Site"@] + records_lines(t, delim@));
            }
            i = i + 1;
        }
        assert(all.take(self.records@.len() as int) =~= all);
        lines
    }
}

} // verus!
