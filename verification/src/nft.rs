//! The nftables ruleset that sends Router Advertisements to the filter's queue,
//! and the batches of commands that set it up and take it down. The ruleset is
//! held as plain values; applying a batch to the kernel is the caller's part.
use vstd::prelude::*;

use crate::{AppState, NetworkInterface};

verus! {

/// Address family of the filter's table and rules.
#[derive(Clone, Copy, Debug, PartialEq, Eq, Structural)]
pub enum NfFamily {
    IP6,
}

/// Type of the filter's chain.
#[derive(Clone, Copy, Debug, PartialEq, Eq, Structural)]
pub enum NfChainType {
    Filter,
}

/// Hook of the filter's chain.
#[derive(Clone, Copy, Debug, PartialEq, Eq, Structural)]
pub enum NfHook {
    Input,
}

/// Policy of the filter's chain.
#[derive(Clone, Copy, Debug, PartialEq, Eq, Structural)]
pub enum NfChainPolicy {
    Accept,
}

/// A table.
#[derive(Debug)]
pub struct NftTable {
    pub family: NfFamily,
    pub name: String,
}

/// A base chain.
#[derive(Debug)]
pub struct NftChain {
    pub family: NfFamily,
    pub table: String,
    pub name: String,
    pub chain_type: NfChainType,
    pub hook: NfHook,
    pub prio: i32,
    pub policy: NfChainPolicy,
}

/// A statement of a rule.
#[derive(Debug)]
pub enum NftStatement {
    /// Matches packets that came in on the named interface.
    MatchIifname(String),
    /// Matches packets whose header field `field` of `protocol` equals `value`.
    MatchPayload { protocol: String, field: String, value: u32 },
    /// Sends the packet to the netfilter queue with this number.
    Queue(u32),
}

/// A rule.
#[derive(Debug)]
pub struct NftRule {
    pub family: NfFamily,
    pub table: String,
    pub chain: String,
    pub expr: Vec<NftStatement>,
    pub comment: String,
}

/// An object of a ruleset.
#[derive(Debug)]
pub enum NftObject {
    Table(NftTable),
    Chain(NftChain),
    Rule(NftRule),
}

/// A command of a batch.
#[derive(Debug)]
pub enum NftCommand {
    Add(NftObject),
    Delete(NftObject),
}

/// Name of the filter's table.
pub open spec fn table_name() -> Seq<char> {
    "rafilter"@
}

/// Name of the filter's chain.
pub open spec fn chain_name() -> Seq<char> {
    "input"@
}

/// The filter's table: IPv6 table `rafilter`.
pub open spec fn is_filter_table(o: NftObject) -> bool {
    &&& o matches NftObject::Table(t)
    &&& t.family == NfFamily::IP6
    &&& t.name@ == table_name()
}

/// The filter's chain: IPv6 filter chain `input` of table `rafilter`, on the input
/// hook, priority 0, accepting by default.
pub open spec fn is_filter_chain(o: NftObject) -> bool {
    &&& o matches NftObject::Chain(c)
    &&& c.family == NfFamily::IP6
    &&& c.table@ == table_name()
    &&& c.name@ == chain_name()
    &&& c.chain_type == NfChainType::Filter
    &&& c.hook == NfHook::Input
    &&& c.prio == 0
    &&& c.policy == NfChainPolicy::Accept
}

/// The rule's statements: a match on the input interface when one is given, a
/// match on ICMPv6 type 134 (Router Advertisement), then the queue.
pub open spec fn rule_statements(expr: Seq<NftStatement>, queue_num: u32, iface: Option<Seq<char>>) -> bool {
    let base: int = if iface is Some {
        1
    } else {
        0
    };
    &&& expr.len() == base + 2
    &&& iface matches Some(name) ==> (expr[0] matches NftStatement::MatchIifname(n) && n@ == name)
    &&& expr[base] matches NftStatement::MatchPayload { protocol, field, value }
    &&& protocol@ == "icmpv6"@
    &&& field@ == "type"@
    &&& value == 134
    &&& expr[base + 1] matches NftStatement::Queue(q)
    &&& q == queue_num
}

/// The filter's rule in chain `input` of table `rafilter`: it sends Router
/// Advertisements (from the given interface, if any) to the queue.
pub open spec fn is_filter_rule(o: NftObject, queue_num: u32, iface: Option<Seq<char>>) -> bool {
    &&& o matches NftObject::Rule(r)
    &&& r.family == NfFamily::IP6
    &&& r.table@ == table_name()
    &&& r.chain@ == chain_name()
    &&& rule_statements(r.expr@, queue_num, iface)
    &&& r.comment@ == "Queue ICMPv6 Router Advertisement packets"@
}

/// The filter's ruleset: its table, its chain and its rule, in this order.
pub open spec fn is_filter_ruleset(objs: Seq<NftObject>, queue_num: u32, iface: Option<Seq<char>>) -> bool {
    &&& objs.len() == 3
    &&& is_filter_table(objs[0])
    &&& is_filter_chain(objs[1])
    &&& is_filter_rule(objs[2], queue_num, iface)
}

/// The name of an optional string.
pub open spec fn opt_name(s: Option<String>) -> Option<Seq<char>> {
    match s {
        Some(n) => Some(n@),
        None => None,
    }
}

/// The filter's ruleset for the given queue and interface.
fn ruleset(queue_num: u32, interface_name: Option<String>) -> (r: Vec<NftObject>)
    ensures
        is_filter_ruleset(r@, queue_num, opt_name(interface_name)),
{
    let table = NftTable { family: NfFamily::IP6, name: "rafilter".to_owned() };
    let chain = NftChain {
        family: NfFamily::IP6,
        table: table.name.clone(),
        name: "input".to_owned(),
        chain_type: NfChainType::Filter,
        hook: NfHook::Input,
        prio: 0,
        policy: NfChainPolicy::Accept,
    };
    let mut rule_expr: Vec<NftStatement> = Vec::new();
    rule_expr.push(
        NftStatement::MatchPayload {
            protocol: "icmpv6".to_owned(),
            field: "type".to_owned(),
            value: 134,
        },
    );
    rule_expr.push(NftStatement::Queue(queue_num));
    let ghost iface = opt_name(interface_name);
    match interface_name {
        Some(the_name) => {
            rule_expr.insert(0, NftStatement::MatchIifname(the_name));
        },
        None => {},
    }
    let rule = NftRule {
        family: NfFamily::IP6,
        table: table.name.clone(),
        chain: chain.name.clone(),
        expr: rule_expr,
        comment: "Queue ICMPv6 Router Advertisement packets".to_owned(),
    };
    let mut objects: Vec<NftObject> = Vec::new();
    objects.push(NftObject::Table(table));
    objects.push(NftObject::Chain(chain));
    objects.push(NftObject::Rule(rule));
    objects
}

/// The filter's ruleset: table `rafilter`, its chain `input` and the rule that
/// queues Router Advertisements (from the interface, if one is named) to `queue_num`.
pub fn create_nftables_objects(queue_num: u16, interface_name: Option<String>) -> (r: Vec<NftObject>)
    ensures
        is_filter_ruleset(r@, queue_num as u32, opt_name(interface_name)),
{
    ruleset(queue_num as u32, interface_name)
}

/// The batch adds the objects, in order.
pub open spec fn adds_all(cmds: Seq<NftCommand>, objs: Seq<NftObject>) -> bool {
    &&& cmds.len() == objs.len()
    &&& forall|k: int| 0 <= k < cmds.len() ==> #[trigger] cmds[k] == NftCommand::Add(objs[k])
}

/// The batch deletes the objects, in order.
pub open spec fn deletes_all(cmds: Seq<NftCommand>, objs: Seq<NftObject>) -> bool {
    &&& cmds.len() == objs.len()
    &&& forall|k: int| 0 <= k < cmds.len() ==> #[trigger] cmds[k] == NftCommand::Delete(objs[k])
}

/// Wraps each object into a command (adding, or deleting), keeping the order.
fn wrap_all(objects: Vec<NftObject>, add: bool) -> (r: Vec<NftCommand>)
    ensures
        add ==> adds_all(r@, objects@),
        !add ==> deletes_all(r@, objects@),
{
    let ghost objs = objects@;
    let mut rest = objects;
    let mut out: Vec<NftCommand> = Vec::new();
    while rest.len() > 0
        invariant
            objs == out@.map_values(|c: NftCommand| match c {
                NftCommand::Add(o) => o,
                NftCommand::Delete(o) => o,
            }) + rest@,
            forall|k: int| 0 <= k < out@.len() ==> (add ==> #[trigger] out@[k] is Add) && (!add ==> out@[k] is Delete),
        decreases rest.len(),
    {
        let o = rest.remove(0);
        if add {
            out.push(NftCommand::Add(o));
        } else {
            out.push(NftCommand::Delete(o));
        }
        proof {
            let f = |c: NftCommand| match c {
                NftCommand::Add(o) => o,
                NftCommand::Delete(o) => o,
            };
            assert(out@.map_values(f) =~= out@.drop_last().map_values(f).push(o));
        }
    }
    proof {
        let f = |c: NftCommand| match c {
            NftCommand::Add(o) => o,
            NftCommand::Delete(o) => o,
        };
        assert(objs =~= out@.map_values(f));
        assert forall|k: int| 0 <= k < out@.len() implies (add ==> #[trigger] out@[k] == NftCommand::Add(objs[k])) && (!add ==> out@[k] == NftCommand::Delete(objs[k])) by {
            assert(objs[k] == f(out@[k]));
        }
    }
    out
}

/// The batch that sets up the filter's ruleset for the state's queue and interface.
pub fn setup_nftables(state: &AppState) -> (r: Vec<NftCommand>)
    ensures
        exists|objs: Seq<NftObject>| #![auto]
            is_filter_ruleset(objs, state.queue_num as u32, opt_name(match state.interface {
                Some(i) => Some(i.name),
                None => None,
            })) && adds_all(r@, objs),
{
    let interface_name = match &state.interface {
        Some(i) => Some(i.name.clone()),
        None => None,
    };
    let objects = create_nftables_objects(state.queue_num, interface_name);
    let ghost objs = objects@;
    let r = wrap_all(objects, true);
    assert(adds_all(r@, objs));
    r
}

/// The batch that deletes the filter's table (and with it its chain and rule).
pub fn delete_nftables() -> (r: Vec<NftCommand>)
    ensures
        r@.len() == 1,
        r@[0] matches NftCommand::Delete(o) && is_filter_table(o),
{
    let mut batch: Vec<NftCommand> = Vec::new();
    batch.push(NftCommand::Delete(NftObject::Table(NftTable { family: NfFamily::IP6, name: "rafilter".to_owned() })));
    batch
}

impl NftTable {
    /// A copy of the table.
    pub fn duplicate(&self) -> (r: NftTable)
        ensures
            r == *self,
    {
        NftTable { family: self.family, name: self.name.clone() }
    }
}

/// The batch of `apply_nftables_action`: for 1, adding the ruleset for queue 0 on
/// every interface; for any other value, deleting its table, chain and rule, in
/// this order.
pub fn apply_nftables_action(a: usize) -> (r: Vec<NftCommand>)
    ensures
        exists|objs: Seq<NftObject>| #![auto]
            is_filter_ruleset(objs, 0, None) && (if a == 1 {
                adds_all(r@, objs)
            } else {
                deletes_all(r@, objs)
            }),
{
    let objects = ruleset(0, None);
    let ghost objs = objects@;
    let r = wrap_all(objects, a == 1);
    assert(is_filter_ruleset(objs, 0, None));
    r
}

/// The deletions of the tables among the objects, in order.
pub open spec fn table_deletions(objs: Seq<NftObject>) -> Seq<NftCommand>
    decreases objs.len(),
{
    if objs.len() == 0 {
        seq![]
    } else {
        let rest = table_deletions(objs.drop_last());
        if objs.last() is Table {
            rest.push(NftCommand::Delete(objs.last()))
        } else {
            rest
        }
    }
}

/// The filter's nftables side: the queue, the interface, and the ruleset that
/// sends Router Advertisements to the queue.
#[derive(Debug)]
pub struct LinuxFilter {
    pub queue_num: u32,
    pub interface_name: Option<NetworkInterface>,
    pub ruleset: Vec<NftObject>,
}

/// The name of an optional interface.
pub open spec fn interface_name_of(i: Option<NetworkInterface>) -> Option<Seq<char>> {
    match i {
        Some(iface) => Some(iface.name@),
        None => None,
    }
}

impl LinuxFilter {
    /// The ruleset is the filter's, for its queue and its interface.
    pub open spec fn wf(&self) -> bool {
        is_filter_ruleset(self.ruleset@, self.queue_num, interface_name_of(self.interface_name))
    }

    /// A filter for the queue and the interface, with its ruleset.
    pub fn new(queue_num: u32, interface_name: Option<NetworkInterface>) -> (r: LinuxFilter)
        ensures
            r.queue_num == queue_num,
            r.interface_name == interface_name,
            r.wf(),
    {
        let name = match &interface_name {
            Some(i) => Some(i.name.clone()),
            None => None,
        };
        let ruleset = ruleset(queue_num, name);
        LinuxFilter { queue_num, interface_name, ruleset }
    }

    /// The batch that sets the filter up: the table, the chain and the rule of its
    /// ruleset added, in this order.
    pub fn init_commands(&self) -> (r: Vec<NftCommand>)
        ensures
            exists|objs: Seq<NftObject>| #![auto]
                is_filter_ruleset(objs, self.queue_num, interface_name_of(self.interface_name))
                    && adds_all(r@, objs),
    {
        let name = match &self.interface_name {
            Some(i) => Some(i.name.clone()),
            None => None,
        };
        let objects = ruleset(self.queue_num, name);
        let ghost objs = objects@;
        let r = wrap_all(objects, true);
        assert(adds_all(r@, objs));
        r
    }

    /// The batch that takes the filter down: every table of its ruleset deleted
    /// (for the filter's ruleset, its one table).
    pub fn cleanup_commands(&self) -> (r: Vec<NftCommand>)
        ensures
            r@ == table_deletions(self.ruleset@),
            self.wf() ==> (r@.len() == 1 && (r@[0] matches NftCommand::Delete(o) && is_filter_table(o))),
    {
        let n = self.ruleset.len();
        let mut batch: Vec<NftCommand> = Vec::new();
        let mut i: usize = 0;
        while i < n
            invariant
                i <= n,
                n == self.ruleset@.len(),
                batch@ == table_deletions(self.ruleset@.take(i as int)),
            decreases n - i,
        {
            let obj = &self.ruleset[i];
            assert(self.ruleset@.take(i + 1).drop_last() == self.ruleset@.take(i as int));
            assert(self.ruleset@.take(i + 1).last() == *obj);
            match obj {
                NftObject::Table(t) => {
                    batch.push(NftCommand::Delete(NftObject::Table(t.duplicate())));
                },
                _ => {},
            }
            i = i + 1;
        }
        assert(self.ruleset@.take(n as int) == self.ruleset@);
        proof {
            if self.wf() {
                let s = self.ruleset@;
                reveal_with_fuel(table_deletions, 4);
                assert(s.drop_last().drop_last().drop_last() =~= Seq::<NftObject>::empty());
            }
        }
        batch
    }
}

/// The table that the setup batch adds is the table that the delete batch removes,
/// and the chain and the rule of the ruleset are that table's: deleting the table
/// takes the whole ruleset down.
pub proof fn lemma_delete_matches_setup(objs: Seq<NftObject>, queue_num: u32, iface: Option<Seq<char>>, deleted: NftObject)
    requires
        is_filter_ruleset(objs, queue_num, iface),
        is_filter_table(deleted),
    ensures
        objs[0] is Table && deleted is Table,
        objs[0]->Table_0.family == deleted->Table_0.family,
        objs[0]->Table_0.name@ == deleted->Table_0.name@,
        objs[1] is Chain && objs[1]->Chain_0.table@ == objs[0]->Table_0.name@,
        objs[2] is Rule && objs[2]->Rule_0.table@ == objs[0]->Table_0.name@,
        objs[2]->Rule_0.chain@ == objs[1]->Chain_0.name@,
{
}

} // verus!
