//! Node configuration: data directory, gossip topic, bootstrap peers,
//! nickname and the locally subscribed channel list.
//!
//! Reading and writing the TOML file is the surrounding binary's business;
//! this module owns the value and the rules for changing it.

use vstd::prelude::*;
use vstd::string::StringExecFns;
use crate::errors::ChannelError;
use crate::names::name_views;
use crate::names::names_without;
use crate::names::normalize_channel_name;
use crate::names::normalized_name;
use crate::names::valid_name;

verus! {

/// Configuration describing how a node participates in the mesh network.
#[derive(Debug)]
pub struct NodeConfig {
    /// Directory holding the config file, identity and channel journals.
    pub data_dir: String,
    /// The single gossip topic every node subscribes to.
    pub topic: String,
    /// Multiaddresses dialed at startup.
    pub bootstrap_nodes: Vec<String>,
    /// Author name for locally typed messages.
    pub nickname: String,
    /// Names of the subscribed channels.
    pub channels: Vec<String>,
}

/// Relies on dirs::data_dir: the platform's per-user data directory, if the
/// platform defines one.  The value depends on the environment, so nothing is
/// assumed of it.
#[verifier::external_body]
fn os_data_dir() -> Option<String> {
    dirs::data_dir().map(|p| p.to_string_lossy().into_owned())
}

/// Relies on whoami::username: the current user's login name.  The value
/// depends on the environment, so nothing is assumed of it.
#[verifier::external_body]
fn os_username() -> String {
    whoami::username()
}

/// The default data directory: `gridspeak` under the platform data
/// directory, or under `.` where the platform defines none.
pub fn default_data_dir() -> (r: String)
    ensures
        r@.len() >= 10,
        r@.skip(r@.len() - 10) == "/gridspeak"@,
{
    let base: String = match os_data_dir() {
        Option::Some(b) => b,
        Option::None => String::from_str("."),
    };
    let r = base.concat("/gridspeak");
    proof {
        reveal_strlit("/gridspeak");
        assert(r@.skip(r@.len() - 10) =~= "/gridspeak"@);
    }
    r
}

/// The default gossip topic.
pub fn default_topic() -> (r: String)
    ensures
        r@ == "gridspeak-global"@,
{
    String::from_str("gridspeak-global")
}

/// The default nickname: the operating-system username.
pub fn default_nickname() -> String {
    os_username()
}

/// The default channel list: just the root channel.
pub fn default_channels() -> (r: Vec<String>)
    ensures
        r@.len() == 1,
        r@[0]@ == "general"@,
{
    let mut v: Vec<String> = Vec::new();
    v.push(String::from_str("general"));
    v
}

/// The default location of the config file, under the default data
/// directory.
pub fn default_config_path() -> (r: String)
    ensures
        r@.len() >= 25,
        r@.skip(r@.len() - 25) == "/gridspeak/gridspeak.toml"@,
{
    let dir = default_data_dir();
    let r = NodeConfig::config_file(dir.as_str());
    proof {
        reveal_strlit("/gridspeak");
        reveal_strlit("/gridspeak.toml");
        reveal_strlit("/gridspeak/gridspeak.toml");
        let d = dir@;
        let tail = "/gridspeak.toml"@;
        assert(r@ == d + tail);
        assert forall|i: int|
            0 <= i < 25 implies r@.skip(r@.len() - 25)[i] == "/gridspeak/gridspeak.toml"@[i] by {
            if i < 10 {
                assert(r@.skip(r@.len() - 25)[i] == d[d.len() - 10 + i]);
                assert(d.skip(d.len() - 10)[i] == d[d.len() - 10 + i]);
            } else {
                assert(r@.skip(r@.len() - 25)[i] == tail[i - 10]);
            }
        }
        assert(r@.skip(r@.len() - 25) =~= "/gridspeak/gridspeak.toml"@);
    }
    r
}

impl Default for NodeConfig {
    /// The configuration a node starts from when no file exists.
    fn default() -> (r: NodeConfig)
        ensures
            r.topic@ == "gridspeak-global"@,
            r.bootstrap_nodes@.len() == 0,
            r.channels@.len() == 1,
            r.channels@[0]@ == "general"@,
    {
        NodeConfig {
            data_dir: default_data_dir(),
            topic: default_topic(),
            bootstrap_nodes: Vec::new(),
            nickname: default_nickname(),
            channels: default_channels(),
        }
    }
}

impl NodeConfig {
    /// The config file path under a data directory.
    pub fn config_file(data_dir: &str) -> (r: String)
        ensures
            r@ == data_dir@ + "/gridspeak.toml"@,
    {
        let mut s: String = String::from_str(data_dir);
        s.append("/gridspeak.toml");
        s
    }

    /// Normalizes and validates `name`, then appends it to the channel list
    /// when it is new.  `Ok(true)` means the list changed and the caller
    /// should persist the configuration; `Ok(false)` means the name was
    /// already present and nothing changed.
    pub fn add_channel(&mut self, name: &str) -> (r: Result<bool, ChannelError>)
        ensures
            match r {
                Ok(changed) => {
                    let n = normalized_name(name@);
                    &&& valid_name(n)
                    &&& if changed {
                        &&& !name_views(old(self).channels@).contains(n)
                        &&& final(self).channels@.len() == old(self).channels@.len() + 1
                        &&& final(self).channels@.drop_last() == old(self).channels@
                        &&& final(self).channels@.last()@ == n
                    } else {
                        &&& name_views(old(self).channels@).contains(n)
                        &&& *final(self) == *old(self)
                    }
                },
                Err(e) => {
                    &&& e == ChannelError::InvalidName
                    &&& !valid_name(normalized_name(name@))
                    &&& *final(self) == *old(self)
                },
            },
            final(self).data_dir == old(self).data_dir,
            final(self).topic == old(self).topic,
            final(self).bootstrap_nodes == old(self).bootstrap_nodes,
            final(self).nickname == old(self).nickname,
    {
        let norm = match normalize_channel_name(name) {
            Ok(n) => n,
            Err(e) => {
                return Err(e);
            },
        };
        proof {
            assert(norm@ =~= normalized_name(name@));
            assert(valid_name(normalized_name(name@)));
        }
        let count = self.channels.len();
        let mut i: usize = 0;
        while i < count
            invariant
                i <= count,
                count == self.channels@.len(),
                norm@ == normalized_name(name@),
                valid_name(norm@),
                self == old(self),
                forall|j: int| 0 <= j < i ==> self.channels@[j]@ != norm@,
            decreases count - i,
        {
            let present = crate::names::str_eq(self.channels[i].as_str(), norm.as_str());
            if present {
                proof {
                    assert(name_views(self.channels@)[i as int] == norm@);
                    assert(name_views(self.channels@).contains(norm@));
                }
                return Ok(false);
            }
            i = i + 1;
        }
        proof {
            assert forall|j: int|
                0 <= j < name_views(self.channels@).len() implies name_views(self.channels@)[j]
                != norm@ by {
                assert(name_views(self.channels@)[j] == self.channels@[j]@);
            }
        }
        self.channels.push(norm);
        proof {
            assert(final(self).channels@.drop_last() =~= old(self).channels@);
        }
        Ok(true)
    }

    /// Drops every entry equal to `name` from the channel list, keeping the
    /// order of the rest.  The caller persists the configuration afterwards.
    pub fn remove_channel(&mut self, name: &str)
        ensures
            final(self).channels@ == names_without(old(self).channels@, name@),
            final(self).data_dir == old(self).data_dir,
            final(self).topic == old(self).topic,
            final(self).bootstrap_nodes == old(self).bootstrap_nodes,
            final(self).nickname == old(self).nickname,
    {
        let mut rest: Vec<String> = Vec::new();
        core::mem::swap(&mut self.channels, &mut rest);
        let ghost before = rest@;
        let mut kept: Vec<String> = Vec::new();
        let ghost mut done: int = 0;
        proof {
            assert(before.take(0) =~= Seq::<String>::empty());
            assert(rest@ =~= before.skip(0));
        }
        while rest.len() > 0
            invariant
                0 <= done <= before.len(),
                rest@ == before.skip(done),
                kept@ == names_without(before.take(done), name@),
            decreases rest@.len(),
        {
            let entry = rest.remove(0);
            proof {
                assert(before.skip(done)[0] == before[done]);
                assert(rest@ =~= before.skip(done + 1));
            }
            let keep = !crate::names::str_eq(entry.as_str(), name);
            proof {
                done = done + 1;
                assert(before.take(done).drop_last() =~= before.take(done - 1));
                assert(before.take(done).last() == before[done - 1]);
            }
            if keep {
                kept.push(entry);
            }
        }
        proof {
            assert(before.take(before.len() as int) =~= before);
        }
        self.channels = kept;
    }
}

} // verus!
