//! The directory: which compute instance, and which security groups, an
//! address may be authorized into.
//!
//! The cloud inventory is fetched outside the core; the core receives, per
//! instance, the instance name, the textual addresses attached to it, and
//! its security-group identifiers, and builds the lookup table that the
//! decision controller consults.  A later instance record wins over an
//! earlier one for the same address, and an instance without security
//! groups is never entered.

use vstd::prelude::*;

use crate::net::spec_parsed_ip;
use crate::net::parse_ip;
use crate::net::IpNet;

verus! {

/// What the directory knows of one instance.
pub struct InstanceInfo {
    /// Display name of the instance.
    pub name: String,
    /// Its security-group identifiers.
    pub idents: Vec<String>,
}

/// The mathematical content of an `InstanceInfo`.
pub struct InstanceInfoView {
    pub name: Seq<char>,
    pub idents: Seq<Seq<char>>,
}

impl View for InstanceInfo {
    type V = InstanceInfoView;

    open spec fn view(&self) -> InstanceInfoView {
        InstanceInfoView { name: self.name@, idents: self.idents.deep_view() }
    }
}

/// One instance as the inventory reports it: its name, the textual
/// addresses attached to it, and its security-group identifiers.
pub struct InstanceRecord {
    pub name: String,
    pub ip_texts: Vec<String>,
    pub group_ids: Vec<String>,
}

/// The mathematical content of an `InstanceRecord`.
pub struct InstanceRecordView {
    pub name: Seq<char>,
    pub ip_texts: Seq<Seq<char>>,
    pub group_ids: Seq<Seq<char>>,
}

impl View for InstanceRecord {
    type V = InstanceRecordView;

    open spec fn view(&self) -> InstanceRecordView {
        InstanceRecordView {
            name: self.name@,
            ip_texts: self.ip_texts.deep_view(),
            group_ids: self.group_ids.deep_view(),
        }
    }
}

impl DeepView for InstanceRecord {
    type V = InstanceRecordView;

    open spec fn deep_view(&self) -> InstanceRecordView {
        self.view()
    }
}

/// Address-to-instance lookup table.
pub struct Directory {
    entries: Vec<(IpNet, InstanceInfo)>,
}

/// The table an entry list denotes: a later entry wins over an earlier one
/// with the same address.
pub open spec fn entries_map(s: Seq<(IpNet, InstanceInfo)>) -> Map<IpNet, InstanceInfoView>
    decreases s.len(),
{
    if s.len() == 0 {
        Map::empty()
    } else {
        entries_map(s.drop_last()).insert(s.last().0, s.last().1@)
    }
}

proof fn lemma_entries_map_found(s: Seq<(IpNet, InstanceInfo)>, ip: IpNet, i: int)
    requires
        0 <= i < s.len(),
        s[i].0 == ip,
        forall|j: int| i < j < s.len() ==> s[j].0 != ip,
    ensures
        entries_map(s).contains_key(ip),
        entries_map(s)[ip] == s[i].1@,
    decreases s.len(),
{
    if i < s.len() - 1 {
        lemma_entries_map_found(s.drop_last(), ip, i);
    }
}

proof fn lemma_entries_map_absent(s: Seq<(IpNet, InstanceInfo)>, ip: IpNet)
    requires
        forall|j: int| 0 <= j < s.len() ==> s[j].0 != ip,
    ensures
        !entries_map(s).contains_key(ip),
    decreases s.len(),
{
    if s.len() > 0 {
        lemma_entries_map_absent(s.drop_last(), ip);
    }
}

impl Directory {
    /// The lookup table this directory holds.
    pub closed spec fn as_map(&self) -> Map<IpNet, InstanceInfoView> {
        entries_map(self.entries@)
    }

    /// An empty directory.
    pub fn new() -> (r: Directory)
        ensures
            r.as_map() == Map::<IpNet, InstanceInfoView>::empty(),
    {
        Directory { entries: Vec::new() }
    }

    /// Enter an instance under an address; a later entry for the same
    /// address replaces an earlier one.
    pub fn insert(&mut self, ip: IpNet, info: InstanceInfo)
        ensures
            final(self).as_map() == old(self).as_map().insert(ip, info@),
    {
        let ghost before = self.entries@;
        self.entries.push((ip, info));
        proof {
            assert(self.entries@.drop_last() =~= before);
        }
    }

    /// The instance an address may be authorized into, if the directory
    /// knows one.
    pub fn lookup(&self, ip: IpNet) -> (r: Option<&InstanceInfo>)
        ensures
            match r {
                Some(info) => self.as_map().contains_key(ip) && info@ == self.as_map()[ip],
                None => !self.as_map().contains_key(ip),
            },
    {
        let mut i: usize = self.entries.len();
        while i > 0
            invariant
                i <= self.entries@.len(),
                forall|j: int| i <= j < self.entries@.len() ==> self.entries@[j].0 != ip,
            decreases i,
        {
            i -= 1;
            let e = &self.entries[i];
            if e.0.hi == ip.hi && e.0.lo == ip.lo && e.0.prefix == ip.prefix && e.0.v6 == ip.v6 {
                proof {
                    assert(self.entries@[i as int].0 == ip);
                    lemma_entries_map_found(self.entries@, ip, i as int);
                }
                return Some(&e.1);
            }
        }
        proof {
            lemma_entries_map_absent(self.entries@, ip);
        }
        None
    }
}

/// What one inventory record adds to a table: each of its addresses that
/// parses is entered, provided the instance has at least one security
/// group.
pub open spec fn spec_add_record(
    m: Map<IpNet, InstanceInfoView>,
    rec: InstanceRecordView,
    upto: int,
) -> Map<IpNet, InstanceInfoView>
    decreases upto,
{
    if upto <= 0 {
        m
    } else {
        let m2 = spec_add_record(m, rec, upto - 1);
        match spec_parsed_ip(rec.ip_texts[upto - 1]) {
            Some(ip) => if rec.group_ids.len() > 0 {
                m2.insert(ip, InstanceInfoView { name: rec.name, idents: rec.group_ids })
            } else {
                m2
            },
            None => m2,
        }
    }
}

/// The table a whole inventory denotes.
pub open spec fn spec_directory(records: Seq<InstanceRecordView>) -> Map<IpNet, InstanceInfoView>
    decreases records.len(),
{
    if records.len() == 0 {
        Map::empty()
    } else {
        spec_add_record(
            spec_directory(records.drop_last()),
            records.last(),
            records.last().ip_texts.len() as int,
        )
    }
}

/// Copy a list of identifiers.
fn clone_strings(v: &Vec<String>) -> (r: Vec<String>)
    ensures
        r.deep_view() == v.deep_view(),
{
    let mut r: Vec<String> = Vec::new();
    let mut i: usize = 0;
    while i < v.len()
        invariant
            0 <= i <= v@.len(),
            r@.len() == i,
            forall|k: int| 0 <= k < i ==> r@[k] == #[trigger] v@[k],
        decreases v@.len() - i,
    {
        r.push(v[i].clone());
        i += 1;
    }
    proof {
        assert forall|k: int| 0 <= k < v@.len() implies r.deep_view()[k] == v.deep_view()[k] by {
            assert(r@[k] == v@[k]);
        }
        assert(r.deep_view() =~= v.deep_view());
    }
    r
}

/// Build the directory from the instance inventory.
///
/// Every address of a record that parses is entered with the record's name
/// and security groups; a record without security groups enters nothing; a
/// later record wins over an earlier one for the same address.
pub fn build_directory(records: &Vec<InstanceRecord>) -> (r: Directory)
    ensures
        r.as_map() == spec_directory(records.deep_view()),
{
    let mut dir = Directory::new();
    let mut i: usize = 0;
    while i < records.len()
        invariant
            0 <= i <= records@.len(),
            records.deep_view().len() == records@.len(),
            forall|k: int|
                0 <= k < records@.len() ==> records.deep_view()[k] == #[trigger] records@[k]@,
            dir.as_map() == spec_directory(records.deep_view().take(i as int)),
        decreases records@.len() - i,
    {
        let rec = &records[i];
        let mut j: usize = 0;
        while j < rec.ip_texts.len()
            invariant
                0 <= j <= rec.ip_texts@.len(),
                rec@.ip_texts.len() == rec.ip_texts@.len(),
                rec == &records[i as int],
                0 <= i < records@.len(),
                records.deep_view().len() == records@.len(),
                forall|k: int|
                    0 <= k < records@.len() ==> records.deep_view()[k] == #[trigger] records@[k]@,
                dir.as_map() == spec_add_record(
                    spec_directory(records.deep_view().take(i as int)),
                    rec@,
                    j as int,
                ),
            decreases rec.ip_texts@.len() - j,
        {
            proof {
                assert(rec@.ip_texts[j as int] == rec.ip_texts@[j as int]@);
            }
            match parse_ip(rec.ip_texts[j].as_str()) {
                Some(ip) => {
                    if rec.group_ids.len() > 0 {
                        let info = InstanceInfo {
                            name: rec.name.clone(),
                            idents: clone_strings(&rec.group_ids),
                        };
                        proof {
                            assert(info@ == InstanceInfoView {
                                name: rec@.name,
                                idents: rec@.group_ids,
                            });
                        }
                        dir.insert(ip, info);
                    }
                },
                None => {},
            }
            j += 1;
        }
        proof {
            assert(records.deep_view().take(i + 1 as int).drop_last() =~= records.deep_view().take(
                i as int,
            ));
            assert(records.deep_view().take(i + 1 as int).last() == rec@);
        }
        i += 1;
    }
    proof {
        assert(records.deep_view().take(records@.len() as int) =~= records.deep_view());
    }
    dir
}

} // verus!
