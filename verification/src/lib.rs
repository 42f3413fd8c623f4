//! Brings cloud firewalls, instances and DNS records to the state that a command asks for.
//!
//! A command names its resources and says what they should be: `Open` gives firewalls
//! exactly the rules that allow some protocols from some networks, `Close` leaves them
//! without rules, `Start` brings instances to run and binds their names in DNS, and `Stop`
//! unbinds the names and stops the instances. [`dispatch::dispatch`] carries a command out
//! against any provider that implements the traits of [`cloud`] and [`dns`]; running a
//! command again changes nothing.
//!
//! - [`iprules`], [`net`], [`ruleset`]: ports, protocols, networks and sets of ingress rules.
//! - [`cloud`], [`dns`]: what a provider has to offer, and what each operation does to the
//!   firewalls, instances and zones that it holds.
//! - [`cloud::lifecycle`]: the power states of an instance and the next step towards
//!   running or stopped.
//! - [`dispatch`], [`idempotence`]: the commands, their effect, and why a second run is idle.
//! - [`cloud::mem`], [`dns::mem`]: providers held in memory.
//! - [`cloud::aws`], [`dns::aws`], [`cli`]: what adapters for Amazon's services and the
//!   command line compute between their requests.

pub mod cli;
pub mod cloud;
pub mod dispatch;
pub mod dns;
pub mod error;
pub mod idempotence;
pub mod iprules;
pub mod net;
pub mod ruleset;
pub mod table;
pub mod text;
