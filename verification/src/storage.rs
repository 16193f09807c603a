//! The records that the persistent store hands to the enforcement core, and
//! what the core reads out of them. The store itself is not part of this
//! library.

use vstd::prelude::*;
use vstd::string::*;

verus! {

/// A website on the blocklist.
#[derive(Debug)]
pub struct BlockedSite {
    pub id: i64,
    pub domain: String,
    pub category: String,
    pub enabled: bool,
    pub created_at: String,
}

/// An application on the blocklist.
#[derive(Debug)]
pub struct BlockedApp {
    pub id: i64,
    pub name: String,
    pub process_name: String,
    pub category: String,
    pub enabled: bool,
    pub created_at: String,
}

/// A rule for a scheduled session. `start_time` and `end_time` are times of
/// day written `HH:MM`; `days` is a JSON array of weekday tags such as
/// `["Mon","Wed"]`.
#[derive(Debug)]
pub struct Session {
    pub id: i64,
    pub name: String,
    pub start_time: String,
    pub end_time: String,
    pub days: String,
    pub hardcore: bool,
    pub enabled: bool,
}

/// A logged attempt to reach something blocked.
#[derive(Debug)]
pub struct BlockEvent {
    pub id: i64,
    pub target: String,
    pub target_type: String,
    pub blocked_at: String,
}

/// The protected minutes and the blocks of one day.
#[derive(Debug)]
pub struct FocusStats {
    pub date: String,
    pub minutes_protected: i64,
    pub blocks_count: i64,
}

impl Clone for BlockedSite {
    fn clone(&self) -> (r: Self)
        ensures
            r == *self,
    {
        BlockedSite {
            id: self.id,
            domain: self.domain.clone(),
            category: self.category.clone(),
            enabled: self.enabled,
            created_at: self.created_at.clone(),
        }
    }
}

impl Clone for BlockedApp {
    fn clone(&self) -> (r: Self)
        ensures
            r == *self,
    {
        BlockedApp {
            id: self.id,
            name: self.name.clone(),
            process_name: self.process_name.clone(),
            category: self.category.clone(),
            enabled: self.enabled,
            created_at: self.created_at.clone(),
        }
    }
}

impl Clone for Session {
    fn clone(&self) -> (r: Self)
        ensures
            r == *self,
    {
        Session {
            id: self.id,
            name: self.name.clone(),
            start_time: self.start_time.clone(),
            end_time: self.end_time.clone(),
            days: self.days.clone(),
            hardcore: self.hardcore,
            enabled: self.enabled,
        }
    }
}

impl Clone for BlockEvent {
    fn clone(&self) -> (r: Self)
        ensures
            r == *self,
    {
        BlockEvent {
            id: self.id,
            target: self.target.clone(),
            target_type: self.target_type.clone(),
            blocked_at: self.blocked_at.clone(),
        }
    }
}

impl Clone for FocusStats {
    fn clone(&self) -> (r: Self)
        ensures
            r == *self,
    {
        FocusStats {
            date: self.date.clone(),
            minutes_protected: self.minutes_protected,
            blocks_count: self.blocks_count,
        }
    }
}

/// The domains of the enabled sites among `sites`, in their order.
pub open spec fn enabled_domains_of(sites: Seq<BlockedSite>) -> Seq<Seq<char>>
    decreases sites.len(),
{
    if sites.len() == 0 {
        Seq::empty()
    } else if sites.last().enabled {
        enabled_domains_of(sites.drop_last()).push(sites.last().domain@)
    } else {
        enabled_domains_of(sites.drop_last())
    }
}

/// The process names of the enabled applications among `apps`, in their order.
pub open spec fn enabled_process_names_of(apps: Seq<BlockedApp>) -> Seq<Seq<char>>
    decreases apps.len(),
{
    if apps.len() == 0 {
        Seq::empty()
    } else if apps.last().enabled {
        enabled_process_names_of(apps.drop_last()).push(apps.last().process_name@)
    } else {
        enabled_process_names_of(apps.drop_last())
    }
}

/// The domains that the hosts file has to block: those of the enabled sites.
pub fn enabled_domains(sites: &[BlockedSite]) -> (domains: Vec<String>)
    ensures
        domains.deep_view() == enabled_domains_of(sites@),
{
    let mut domains: Vec<String> = Vec::new();
    let mut i: usize = 0;
    while i < sites.len()
        invariant
            i <= sites@.len(),
            domains.deep_view() == enabled_domains_of(sites@.subrange(0, i as int)),
        decreases sites@.len() - i,
    {
        assert(sites@.subrange(0, i + 1).drop_last() =~= sites@.subrange(0, i as int));
        if sites[i].enabled {
            domains.push(sites[i].domain.clone());
        }
        i += 1;
    }
    assert(sites@.subrange(0, i as int) =~= sites@);
    domains
}

/// The process names that the enforcer has to look for: those of the enabled
/// applications.
pub fn enabled_process_names(apps: &[BlockedApp]) -> (names: Vec<String>)
    ensures
        names.deep_view() == enabled_process_names_of(apps@),
{
    let mut names: Vec<String> = Vec::new();
    let mut i: usize = 0;
    while i < apps.len()
        invariant
            i <= apps@.len(),
            names.deep_view() == enabled_process_names_of(apps@.subrange(0, i as int)),
        decreases apps@.len() - i,
    {
        assert(apps@.subrange(0, i + 1).drop_last() =~= apps@.subrange(0, i as int));
        if apps[i].enabled {
            names.push(apps[i].process_name.clone());
        }
        i += 1;
    }
    assert(apps@.subrange(0, i as int) =~= apps@);
    names
}

} // verus!
