use vstd::prelude::*;

use crate::proxy::{ConnectionContext, ProxyError};

verus! {

/// Rotation settings applied to outgoing traffic: an optional IP rotation
/// interval and a pool of User-Agent strings used in the order they were added.
#[derive(Clone, Debug)]
pub struct SecurityManager {
    /// IP rotation interval in nanoseconds, if rotation is enabled.
    pub ip_rotation_interval: Option<u128>,
    /// The User-Agent pool, oldest first.
    pub user_agents: Vec<String>,
}

/// The User-Agent that is handed out next: the oldest one in the pool.
pub open spec fn next_user_agent(agents: Seq<Seq<char>>) -> Option<Seq<char>> {
    if agents.len() == 0 {
        None
    } else {
        Some(agents[0])
    }
}

impl SecurityManager {
    /// The User-Agent pool, each agent by its characters.
    pub open spec fn agents(&self) -> Seq<Seq<char>> {
        self.user_agents@.map_values(|s: String| s@)
    }

    pub fn new(ip_rotation_interval: Option<u128>) -> (r: Self)
        ensures
            r.ip_rotation_interval == ip_rotation_interval,
            r.agents() == Seq::<Seq<char>>::empty(),
    {
        let r = SecurityManager { ip_rotation_interval, user_agents: Vec::new() };
        assert(r.agents() =~= Seq::<Seq<char>>::empty());
        r
    }

    /// Applies the rotation settings to a connection. The settings are read
    /// only for logging, which this library leaves to its caller: every
    /// connection passes.
    pub fn apply_security_measures(&self, _ctx: &ConnectionContext) -> (r: Result<(), ProxyError>)
        ensures
            r == Ok::<(), ProxyError>(()),
    {
        Ok(())
    }

    pub fn add_user_agent(&mut self, ua: String)
        ensures
            final(self).ip_rotation_interval == old(self).ip_rotation_interval,
            final(self).agents() == old(self).agents().push(ua@),
    {
        self.user_agents.push(ua);
        assert(self.agents() =~= old(self).agents().push(ua@));
    }

    pub fn get_next_user_agent(&self) -> (r: Option<&str>)
        ensures
            match r {
                Some(s) => next_user_agent(self.agents()) == Some(s@),
                None => next_user_agent(self.agents()) is None,
            },
    {
        if self.user_agents.len() == 0 {
            None
        } else {
            Some(self.user_agents[0].as_str())
        }
    }
}

/// The User-Agent handed out is the first one ever added: adding more
/// never changes it, and adding to an empty pool makes the new one next.
pub proof fn lemma_first_agent_stays(agents: Seq<Seq<char>>, ua: Seq<char>)
    ensures
        next_user_agent(agents.push(ua)) == if agents.len() == 0 {
            Some(ua)
        } else {
            next_user_agent(agents)
        },
{
}

/// The agents of a manager whose agents were `start` after adding `added`
/// in order.
pub open spec fn after_additions(start: Seq<Seq<char>>, added: Seq<Seq<char>>) -> Seq<Seq<char>>
    decreases added.len(),
{
    if added.len() == 0 {
        start
    } else {
        after_additions(start, added.drop_last()).push(added.last())
    }
}

/// After any number of additions to a new manager, the agent handed out is
/// the first one added, or none when nothing was added.
pub proof fn lemma_first_added_agent_is_next(added: Seq<Seq<char>>)
    ensures
        after_additions(Seq::empty(), added) == added,
        next_user_agent(after_additions(Seq::empty(), added)) == if added.len() == 0 {
            None
        } else {
            Some(added[0])
        },
    decreases added.len(),
{
    if added.len() > 0 {
        lemma_first_added_agent_is_next(added.drop_last());
        assert(added.drop_last().push(added.last()) =~= added);
    }
}

} // verus!
