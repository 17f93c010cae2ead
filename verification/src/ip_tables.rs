//! The redirect rules that steer traffic to the stealer's listener.
//!
//! [`SafeIpTables`] is the book that is kept of the rules in the stealer's own
//! chain. Whoever owns the real chain applies each change that the book
//! reports and flushes the chain when the book is dropped.

use crate::filter::{all_ascii, as_chars, string_from_ascii};
use crate::protocol::Port;
use vstd::prelude::*;
use vstd::string::*;

verus! {

/// A rule that sends the traffic of a port to another: `(from, to)`.
pub type Redirect = (Port, Port);

/// Picks every rule but `rule`.
pub open spec fn not_rule(rule: Redirect) -> spec_fn(Redirect) -> bool {
    |other: Redirect| other != rule
}

/// The rules of the stealer's chain, in the order in which they were added.
#[derive(Debug)]
pub struct SafeIpTables {
    rules: Vec<Redirect>,
}

impl View for SafeIpTables {
    type V = Seq<Redirect>;

    closed spec fn view(&self) -> Seq<Redirect> {
        self.rules@
    }
}

impl SafeIpTables {
    /// No rule is installed twice.
    pub open spec fn wf(&self) -> bool {
        self@.no_duplicates()
    }

    /// The book of a fresh chain, which holds no rule.
    pub fn new() -> (tables: SafeIpTables)
        ensures
            tables.wf(),
            tables@ == Seq::<Redirect>::empty(),
    {
        SafeIpTables { rules: Vec::new() }
    }

    /// Whether the rule is installed.
    pub fn has_redirect(&self, redirected_port: Port, target_port: Port) -> (installed: bool)
        ensures
            installed == self@.contains((redirected_port, target_port)),
    {
        let mut i: usize = 0;
        while i < self.rules.len()
            invariant
                i <= self.rules@.len(),
                forall|j: int| 0 <= j < i ==> self.rules@[j] != (redirected_port, target_port),
            decreases self.rules@.len() - i,
        {
            let rule = self.rules[i];
            if rule.0 == redirected_port && rule.1 == target_port {
                return true;
            }
            i += 1;
        }
        false
    }

    /// Books a rule. Returns whether the chain has to change: a rule that is
    /// installed already is not installed again.
    pub fn add_redirect(&mut self, redirected_port: Port, target_port: Port) -> (changed: bool)
        requires
            old(self).wf(),
        ensures
            final(self).wf(),
            changed == !old(self)@.contains((redirected_port, target_port)),
            final(self)@ == if changed {
                old(self)@.push((redirected_port, target_port))
            } else {
                old(self)@
            },
    {
        if self.has_redirect(redirected_port, target_port) {
            false
        } else {
            let ghost before = self@;
            self.rules.push((redirected_port, target_port));
            assert(self@ =~= before.push((redirected_port, target_port)));
            true
        }
    }

    /// Strikes a rule from the book. Returns whether the chain has to change:
    /// a rule that is not installed is not removed.
    pub fn remove_redirect(&mut self, redirected_port: Port, target_port: Port) -> (changed: bool)
        requires
            old(self).wf(),
        ensures
            final(self).wf(),
            changed == old(self)@.contains((redirected_port, target_port)),
            final(self)@ == old(self)@.filter(not_rule((redirected_port, target_port))),
            !final(self)@.contains((redirected_port, target_port)),
    {
        let changed = self.has_redirect(redirected_port, target_port);
        let ghost pick = not_rule((redirected_port, target_port));
        let mut kept: Vec<Redirect> = Vec::new();
        let mut i: usize = 0;
        assert(self.rules@.take(0) =~= Seq::<Redirect>::empty());
        while i < self.rules.len()
            invariant
                i <= self.rules@.len(),
                pick == not_rule((redirected_port, target_port)),
                kept@ == self.rules@.take(i as int).filter(pick),
            decreases self.rules@.len() - i,
        {
            let rule = self.rules[i];
            proof {
                self.rules@.take(i as int).lemma_filter_push(rule, pick);
                assert(self.rules@.take(i + 1) =~= self.rules@.take(i as int).push(rule));
            }
            if !(rule.0 == redirected_port && rule.1 == target_port) {
                kept.push(rule);
            }
            i += 1;
        }
        proof {
            assert(self.rules@.take(i as int) =~= self.rules@);
            crate::seq_facts::lemma_filter_no_duplicates(self.rules@, pick);
            crate::seq_facts::lemma_filter_membership(
                self.rules@,
                pick,
                (redirected_port, target_port),
            );
        }
        self.rules = kept;
        changed
    }

    /// Whether the chain holds no rule.
    pub fn is_empty(&self) -> (empty: bool)
        ensures
            empty == (self@.len() == 0),
    {
        self.rules.len() == 0
    }

    /// The installed rules, oldest first.
    pub fn list_rules(&self) -> (rules: Vec<Redirect>)
        ensures
            rules@ == self@,
    {
        let mut rules: Vec<Redirect> = Vec::new();
        let mut i: usize = 0;
        while i < self.rules.len()
            invariant
                i <= self.rules@.len(),
                rules@ == self.rules@.take(i as int),
            decreases self.rules@.len() - i,
        {
            rules.push(self.rules[i]);
            assert(self.rules@.take(i + 1) =~= self.rules@.take(i as int).push(self.rules@[i as int]));
            i += 1;
        }
        assert(self.rules@.take(i as int) =~= self.rules@);
        rules
    }
}

/// The decimal digits of a number, as ASCII, without leading zeros.
pub open spec fn decimal(n: nat) -> Seq<u8>
    decreases n,
{
    if n < 10 {
        seq![(48 + n) as u8]
    } else {
        decimal(n / 10).push((48 + n % 10) as u8)
    }
}

/// The digits of a number are ASCII.
pub proof fn lemma_decimal_is_ascii(n: nat)
    ensures
        all_ascii(decimal(n)),
        decimal(n).len() > 0,
    decreases n,
{
    if n >= 10 {
        lemma_decimal_is_ascii(n / 10);
    }
}

/// Writes a port in decimal.
pub fn decimal_digits(port: Port) -> (digits: Vec<u8>)
    ensures
        digits@ == decimal(port as nat),
    decreases port,
{
    if port < 10 {
        let mut digits: Vec<u8> = Vec::new();
        digits.push(48 + port as u8);
        assert(digits@ =~= decimal(port as nat));
        digits
    } else {
        let mut digits = decimal_digits(port / 10);
        digits.push(48 + (port % 10) as u8);
        digits
    }
}

/// The text of the rule that redirects the TCP traffic of one port to another.
pub open spec fn redirect_rule_text(redirected_port: Port, target_port: Port) -> Seq<char> {
    "-p tcp --dport "@ + as_chars(decimal(redirected_port as nat)) + " -j REDIRECT --to-ports "@
        + as_chars(decimal(target_port as nat))
}

fn port_text(port: Port) -> (text: String)
    ensures
        text@ == as_chars(decimal(port as nat)),
{
    proof {
        lemma_decimal_is_ascii(port as nat);
    }
    match string_from_ascii(decimal_digits(port)) {
        Some(text) => text,
        None => String::new(),
    }
}

/// The rule that redirects the TCP traffic of `redirected_port` to
/// `target_port`, as the packet filter takes it.
pub fn redirect_rule(redirected_port: Port, target_port: Port) -> (rule: String)
    ensures
        rule@ == redirect_rule_text(redirected_port, target_port),
{
    let mut rule = "-p tcp --dport ".to_owned();
    rule.append(port_text(redirected_port).as_str());
    rule.append(" -j REDIRECT --to-ports ");
    rule.append(port_text(target_port).as_str());
    rule
}

/// The name of the chain that holds the stealer's rules.
pub fn chain_name() -> (name: String)
    ensures
        name@ == "MIRRORD_REDIRECT"@,
{
    "MIRRORD_REDIRECT".to_owned()
}

} // verus!
