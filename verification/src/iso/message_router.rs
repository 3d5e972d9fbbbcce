//! Routing of payment messages to destinations, and compliance screening.
use vstd::prelude::*;
use crate::iso::IsoError;
use crate::iso::iso8583::{Iso8583Message, element_text, text_of};
use crate::primitives::text::{str_to_chars, parse_u64_spec, parse_u64_radix, u64_to_decimal, chars_to_string, dec_digits};
use vstd::string::StringExecFns;

verus! {

/// Kinds of message that are routed.
#[derive(Clone, Copy, Debug, PartialEq, Eq, Hash, Structural)]
pub enum MessageType {
    /// ISO 20022 credit transfer (pacs.008).
    CreditTransfer,
    /// ISO 20022 payment status (pacs.002).
    PaymentStatus,
    /// ISO 20022 direct debit (pacs.003).
    DirectDebit,
    /// ISO 20022 payment return (pacs.004).
    PaymentReturn,
    /// ISO 8583 authorization.
    CardAuthorization,
    /// ISO 8583 financial message.
    CardFinancial,
    /// ISO 8583 reversal.
    CardReversal,
    /// Transaction on the chain itself.
    BlockchainTx,
}

/// Kinds of destination network.
#[derive(Clone, Copy, Debug, PartialEq, Eq, Structural)]
pub enum DestinationType {
    Swift,
    Sepa,
    Fedwire,
    Blockchain,
    Internal,
    Api,
}

/// A destination that messages can be routed to.
pub struct RouteDestination {
    /// Destination identifier (BIC, endpoint and the like).
    pub destination_id: String,
    pub destination_type: DestinationType,
    /// Lower is preferred.
    pub priority: u8,
    pub active: bool,
    /// Free-form key/value pairs.
    pub metadata: Vec<(String, String)>,
}

/// The abstract content of a destination.
#[verifier::ext_equal]
pub struct RouteDestinationView {
    pub destination_id: Seq<char>,
    pub destination_type: DestinationType,
    pub priority: u8,
    pub active: bool,
    pub metadata: Seq<(Seq<char>, Seq<char>)>,
}

impl View for RouteDestination {
    type V = RouteDestinationView;

    open spec fn view(&self) -> RouteDestinationView {
        RouteDestinationView {
            destination_id: self.destination_id@,
            destination_type: self.destination_type,
            priority: self.priority,
            active: self.active,
            metadata: Seq::new(self.metadata@.len(), |i: int| (self.metadata@[i].0@, self.metadata@[i].1@)),
        }
    }
}

impl RouteDestination {
    /// A copy of this destination.
    pub fn duplicate(&self) -> (r: Self)
        ensures r@ == self@,
    {
        let mut metadata: Vec<(String, String)> = Vec::new();
        let mut i: usize = 0;
        while i < self.metadata.len()
            invariant
                i <= self.metadata@.len(),
                metadata@.len() == i,
                forall|j: int| 0 <= j < i ==> (#[trigger] metadata@[j]).0@ == self.metadata@[j].0@
                    && metadata@[j].1@ == self.metadata@[j].1@,
            decreases self.metadata@.len() - i,
        {
            let k = self.metadata[i].0.clone();
            let v = self.metadata[i].1.clone();
            metadata.push((k, v));
            i = i + 1;
        }
        let r = RouteDestination {
            destination_id: self.destination_id.clone(),
            destination_type: self.destination_type,
            priority: self.priority,
            active: self.active,
            metadata,
        };
        assert(r@.metadata =~= self@.metadata);
        r
    }
}

/// A condition on the routing context of a message.
pub enum RoutingCondition {
    /// Always holds.
    Always,
    /// The message is in this currency.
    Currency(String),
    /// The amount is strictly greater than this.
    AmountGreaterThan(u64),
    /// The creditor's country is this.
    CreditorCountry(String),
    /// The debtor's country is this.
    DebtorCountry(String),
    /// The creditor's BIC starts with this.
    BicPrefix(String),
    And(Box<RoutingCondition>, Box<RoutingCondition>),
    Or(Box<RoutingCondition>, Box<RoutingCondition>),
    Not(Box<RoutingCondition>),
}

/// What routing decisions look at in a message.
pub struct MessageContext {
    pub message_type: Option<MessageType>,
    pub currency: Option<String>,
    pub amount: Option<u64>,
    pub creditor_country: Option<String>,
    pub debtor_country: Option<String>,
    pub creditor_bic: Option<String>,
    pub debtor_bic: Option<String>,
    pub creditor_iban: Option<String>,
    pub debtor_iban: Option<String>,
}

impl Default for MessageContext {
    fn default() -> (r: Self)
        ensures
            r.message_type is None,
            r.currency is None,
            r.amount is None,
            r.creditor_country is None,
            r.debtor_country is None,
            r.creditor_bic is None,
            r.debtor_bic is None,
            r.creditor_iban is None,
            r.debtor_iban is None,
    {
        MessageContext {
            message_type: None,
            currency: None,
            amount: None,
            creditor_country: None,
            debtor_country: None,
            creditor_bic: None,
            debtor_bic: None,
            creditor_iban: None,
            debtor_iban: None,
        }
    }
}

/// An optional string holds exactly the characters `c`.
pub open spec fn opt_is(o: Option<String>, c: Seq<char>) -> bool {
    o matches Some(s) && s@ == c
}

impl RoutingCondition {
    /// Whether the condition holds of a context.
    pub open spec fn holds(&self, ctx: &MessageContext) -> bool
        decreases self,
    {
        match self {
            RoutingCondition::Always => true,
            RoutingCondition::Currency(c) => opt_is(ctx.currency, c@),
            RoutingCondition::AmountGreaterThan(amt) => ctx.amount matches Some(a) && a > *amt,
            RoutingCondition::CreditorCountry(c) => opt_is(ctx.creditor_country, c@),
            RoutingCondition::DebtorCountry(c) => opt_is(ctx.debtor_country, c@),
            RoutingCondition::BicPrefix(p) => ctx.creditor_bic matches Some(b)
                && p@.len() <= b@.len() && b@.take(p@.len() as int) == p@,
            RoutingCondition::And(a, b) => a.holds(ctx) && b.holds(ctx),
            RoutingCondition::Or(a, b) => a.holds(ctx) || b.holds(ctx),
            RoutingCondition::Not(c) => !c.holds(ctx),
        }
    }

    /// Evaluates the condition against a message context.
    pub fn matches(&self, ctx: &MessageContext) -> (r: bool)
        ensures r == self.holds(ctx),
        decreases self,
    {
        match self {
            RoutingCondition::Always => true,
            RoutingCondition::Currency(c) => opt_string_is(&ctx.currency, c),
            RoutingCondition::AmountGreaterThan(amt) => match ctx.amount {
                Some(a) => a > *amt,
                None => false,
            },
            RoutingCondition::CreditorCountry(c) => opt_string_is(&ctx.creditor_country, c),
            RoutingCondition::DebtorCountry(c) => opt_string_is(&ctx.debtor_country, c),
            RoutingCondition::BicPrefix(p) => match &ctx.creditor_bic {
                Some(b) => starts_with(b, p),
                None => false,
            },
            RoutingCondition::And(a, b) => a.matches(ctx) && b.matches(ctx),
            RoutingCondition::Or(a, b) => a.matches(ctx) || b.matches(ctx),
            RoutingCondition::Not(c) => !c.matches(ctx),
        }
    }
}

fn opt_string_is(o: &Option<String>, c: &String) -> (r: bool)
    ensures r == opt_is(*o, c@),
{
    match o {
        Some(s) => *s == *c,
        None => false,
    }
}

/// Whether `s` starts with `p`.
fn starts_with(s: &String, p: &String) -> (r: bool)
    ensures r == (p@.len() <= s@.len() && s@.take(p@.len() as int) == p@),
{
    let a = str_to_chars(s.as_str());
    let b = str_to_chars(p.as_str());
    if b.len() > a.len() {
        return false;
    }
    let mut i: usize = 0;
    while i < b.len()
        invariant
            i <= b@.len() <= a@.len(),
            a@ == s@,
            b@ == p@,
            forall|j: int| 0 <= j < i ==> a@[j] == b@[j],
        decreases b@.len() - i,
    {
        if a[i] != b[i] {
            assert(a@.take(b@.len() as int)[i as int] != b@[i as int]);
            assert(s@.take(p@.len() as int)[i as int] != p@[i as int]);
            return false;
        }
        i = i + 1;
    }
    assert(a@.take(b@.len() as int) =~= b@);
    true
}

/// A rule: messages of a type meeting a condition go to its destinations.
pub struct RoutingRule {
    pub id: String,
    pub name: String,
    pub message_type: MessageType,
    pub condition: RoutingCondition,
    pub destinations: Vec<RouteDestination>,
    /// Lower is tried first.
    pub priority: u8,
}

/// The active destinations of a list, in order.
pub open spec fn active_of(d: Seq<RouteDestinationView>) -> Seq<RouteDestinationView>
    decreases d.len(),
{
    if d.len() == 0 {
        Seq::empty()
    } else if d.last().active {
        active_of(d.drop_last()).push(d.last())
    } else {
        active_of(d.drop_last())
    }
}

/// The views of a list of destinations.
pub open spec fn dest_views(d: Seq<RouteDestination>) -> Seq<RouteDestinationView> {
    Seq::new(d.len(), |i: int| d[i]@)
}

/// Copies of the active destinations of a list.
fn active_destinations(d: &Vec<RouteDestination>) -> (r: Vec<RouteDestination>)
    ensures dest_views(r@) == active_of(dest_views(d@)),
{
    let mut out: Vec<RouteDestination> = Vec::new();
    let mut i: usize = 0;
    while i < d.len()
        invariant
            i <= d@.len(),
            dest_views(out@) == active_of(dest_views(d@).take(i as int)),
        decreases d@.len() - i,
    {
        assert(dest_views(d@).take(i + 1).drop_last() =~= dest_views(d@).take(i as int));
        if d[i].active {
            let c = d[i].duplicate();
            out.push(c);
            assert(dest_views(out@) =~= active_of(dest_views(d@).take(i as int)).push(d@[i as int]@));
        }
        i = i + 1;
    }
    assert(dest_views(d@).take(d@.len() as int) =~= dest_views(d@));
    out
}

/// Routes messages by prioritised rules, with a default route per message
/// type when no rule applies.
pub struct MessageRouter {
    rules: Vec<RoutingRule>,
    default_routes: Vec<(MessageType, Vec<RouteDestination>)>,
}

/// The index of the first rule that applies to a context: of the context's
/// message type, whose condition holds, with an active destination.
pub open spec fn rule_applies(rule: RoutingRule, ctx: &MessageContext) -> bool {
    &&& ctx.message_type == Some(rule.message_type)
    &&& rule.condition.holds(ctx)
    &&& active_of(dest_views(rule.destinations@)).len() > 0
}

impl MessageRouter {
    /// The rules, in the order they are tried.
    pub closed spec fn rules(&self) -> Seq<RoutingRule> {
        self.rules@
    }

    /// The default destinations of each message type, latest setting first.
    pub closed spec fn defaults(&self) -> Seq<(MessageType, Seq<RouteDestinationView>)> {
        Seq::new(self.default_routes@.len(), |i: int| (self.default_routes@[i].0, dest_views(self.default_routes@[i].1@)))
    }

    /// Rules are ordered by priority, lowest first.
    pub open spec fn wf(&self) -> bool {
        forall|i: int, j: int| 0 <= i < j < self.rules().len() ==> (#[trigger] self.rules()[i]).priority <= (#[trigger] self.rules()[j]).priority
    }

    pub fn new() -> (r: Self)
        ensures
            r.wf(),
            r.rules() == Seq::<RoutingRule>::empty(),
            r.defaults() == Seq::<(MessageType, Seq<RouteDestinationView>)>::empty(),
    {
        let r = MessageRouter { rules: Vec::new(), default_routes: Vec::new() };
        assert(r.defaults() =~= Seq::<(MessageType, Seq<RouteDestinationView>)>::empty());
        r
    }

    /// Adds a rule after every rule of the same or lower priority value.
    pub fn add_rule(&mut self, rule: RoutingRule)
        requires old(self).wf(),
        ensures
            final(self).wf(),
            final(self).defaults() == old(self).defaults(),
            exists|p: int| 0 <= p <= old(self).rules().len()
                && final(self).rules() == old(self).rules().insert(p, rule)
                && (forall|j: int| 0 <= j < p ==> (#[trigger] old(self).rules()[j]).priority <= rule.priority)
                && (forall|j: int| p <= j < old(self).rules().len() ==> (#[trigger] old(self).rules()[j]).priority > rule.priority),
    {
        let ghost old_rules = self.rules@;
        let mut p: usize = 0;
        while p < self.rules.len() && self.rules[p].priority <= rule.priority
            invariant
                self.rules@ == old_rules,
                p <= self.rules@.len(),
                forall|j: int| 0 <= j < p ==> (#[trigger] self.rules@[j]).priority <= rule.priority,
            decreases self.rules@.len() - p,
        {
            p = p + 1;
        }
        proof {
            assert forall|j: int| p <= j < old_rules.len() implies (#[trigger] old_rules[j]).priority > rule.priority by {
                assert(old_rules[p as int].priority > rule.priority);
                if j > p {
                    assert(old_rules[p as int].priority <= old_rules[j].priority);
                }
            }
        }
        let ghost prio = rule.priority;
        self.rules.insert(p, rule);
        proof {
            let t = self.rules@;
            assert(t == old_rules.insert(p as int, t[p as int]));
            assert forall|i: int, j: int| 0 <= i < j < t.len() implies (#[trigger] t[i]).priority <= (#[trigger] t[j]).priority by {
                if i < p && j < p {
                } else if i < p && j == p {
                } else if i < p {
                    assert(t[j] == old_rules[j - 1]);
                } else if i == p {
                    assert(t[j] == old_rules[j - 1]);
                } else {
                    assert(t[i] == old_rules[i - 1]);
                    assert(t[j] == old_rules[j - 1]);
                }
            }
        }
    }

    /// Sets the default destinations of a message type.
    pub fn set_default_route(&mut self, msg_type: MessageType, destinations: Vec<RouteDestination>)
        ensures
            final(self).rules() == old(self).rules(),
            final(self).defaults() == seq![(msg_type, dest_views(destinations@))] + old(self).defaults(),
    {
        self.default_routes.insert(0, (msg_type, destinations));
        assert(self.defaults() =~= seq![(msg_type, dest_views(destinations@))] + old(self).defaults());
    }
}

/// The default destinations set most recently for a type, if any.
pub open spec fn default_for(d: Seq<(MessageType, Seq<RouteDestinationView>)>, t: MessageType) -> Option<Seq<RouteDestinationView>>
    decreases d.len(),
{
    if d.len() == 0 {
        None
    } else if d[0].0 == t {
        Some(d[0].1)
    } else {
        default_for(d.drop_first(), t)
    }
}

/// The active destinations of the first rule of `rules` that applies.
pub open spec fn first_route(rules: Seq<RoutingRule>, ctx: &MessageContext) -> Option<Seq<RouteDestinationView>>
    decreases rules.len(),
{
    if rules.len() == 0 {
        None
    } else if rule_applies(rules[0], ctx) {
        Some(active_of(dest_views(rules[0].destinations@)))
    } else {
        first_route(rules.drop_first(), ctx)
    }
}

/// Where a context is routed: the active destinations of the first rule that
/// applies, else the active default destinations of its type, else nowhere.
pub open spec fn route_spec(router: MessageRouter, ctx: &MessageContext) -> Option<Seq<RouteDestinationView>> {
    match first_route(router.rules(), ctx) {
        Some(d) => Some(d),
        None => match ctx.message_type {
            Some(t) => match default_for(router.defaults(), t) {
                Some(d) => if active_of(d).len() > 0 { Some(active_of(d)) } else { None },
                None => None,
            },
            None => None,
        },
    }
}

/// The active destinations of a list are all active and all come from it.
pub proof fn lemma_active_of_active(d: Seq<RouteDestinationView>)
    ensures
        forall|k: int| 0 <= k < active_of(d).len() ==> (#[trigger] active_of(d)[k]).active && d.contains(active_of(d)[k]),
        active_of(d).len() <= d.len(),
    decreases d.len(),
{
    if d.len() > 0 {
        lemma_active_of_active(d.drop_last());
        let a = active_of(d.drop_last());
        assert forall|k: int| 0 <= k < active_of(d).len() implies (#[trigger] active_of(d)[k]).active && d.contains(active_of(d)[k]) by {
            if k < a.len() {
                assert(active_of(d)[k] == a[k]);
                let j = choose|j: int| 0 <= j < d.drop_last().len() && d.drop_last()[j] == a[k];
                assert(d[j] == a[k]);
            } else {
                assert(d[d.len() - 1] == active_of(d)[k]);
            }
        }
    }
}

proof fn lemma_first_route_active(rules: Seq<RoutingRule>, ctx: &MessageContext)
    ensures
        first_route(rules, ctx) matches Some(d) ==> d.len() > 0 && forall|k: int| 0 <= k < d.len() ==> (#[trigger] d[k]).active,
    decreases rules.len(),
{
    if rules.len() > 0 {
        lemma_active_of_active(dest_views(rules[0].destinations@));
        lemma_first_route_active(rules.drop_first(), ctx);
    }
}

/// A message is only ever routed to a nonempty list of active destinations.
pub proof fn lemma_route_active(router: MessageRouter, ctx: &MessageContext)
    ensures
        route_spec(router, ctx) matches Some(d) ==> d.len() > 0 && forall|k: int| 0 <= k < d.len() ==> (#[trigger] d[k]).active,
{
    lemma_first_route_active(router.rules(), ctx);
    if let Some(t) = ctx.message_type {
        if let Some(d) = default_for(router.defaults(), t) {
            lemma_active_of_active(d);
        }
    }
}

/// Setting a default route for a type takes effect for the messages of that
/// type that no rule routes, and changes nothing for those that a rule
/// routes or that are of another type with a default of its own.
pub proof fn lemma_default_route_set(r1: MessageRouter, r2: MessageRouter, t: MessageType, d: Seq<RouteDestinationView>, ctx: &MessageContext)
    requires
        r2.rules() == r1.rules(),
        r2.defaults() == seq![(t, d)] + r1.defaults(),
    ensures
        first_route(r1.rules(), ctx) is Some ==> route_spec(r2, ctx) == route_spec(r1, ctx),
        first_route(r1.rules(), ctx) is None && ctx.message_type == Some(t) ==>
            route_spec(r2, ctx) == if active_of(d).len() > 0 { Some(active_of(d)) } else { None::<Seq<RouteDestinationView>> },
        ctx.message_type != Some(t) ==> route_spec(r2, ctx) == route_spec(r1, ctx),
{
    let ds = r2.defaults();
    assert(ds.drop_first() =~= r1.defaults());
}

impl MessageRouter {
    /// Routes a message by its context.
    pub fn route(&self, ctx: &MessageContext) -> (r: Result<Vec<RouteDestination>, IsoError>)
        ensures
            match r {
                Ok(d) => route_spec(*self, ctx) == Some(dest_views(d@)),
                Err(e) => route_spec(*self, ctx) is None && e is RoutingFailed,
            },
    {
        let ghost rules = self.rules();
        assert(rules.skip(0) =~= rules);
        let mut i: usize = 0;
        while i < self.rules.len()
            invariant
                rules == self.rules(),
                rules == self.rules@,
                i <= rules.len(),
                first_route(rules, ctx) == first_route(rules.skip(i as int), ctx),
            decreases rules.len() - i,
        {
            assert(rules.skip(i as int).drop_first() =~= rules.skip(i + 1));
            assert(rules.skip(i as int)[0] == rules[i as int]);
            let rule = &self.rules[i];
            let same_type = match ctx.message_type {
                Some(t) => t == rule.message_type,
                None => false,
            };
            if same_type && rule.condition.matches(ctx) {
                let active = active_destinations(&rule.destinations);
                if active.len() > 0 {
                    assert(rule_applies(rules[i as int], ctx));
                    return Ok(active);
                }
            }
            i = i + 1;
        }
        assert(rules.skip(rules.len() as int) =~= Seq::<RoutingRule>::empty());
        match ctx.message_type {
            Some(t) => {
                let ghost d = self.defaults();
                assert(d.skip(0) =~= d);
                let mut k: usize = 0;
                while k < self.default_routes.len()
                    invariant
                        d == self.defaults(),
                        k <= d.len(),
                        d.len() == self.default_routes@.len(),
                        default_for(d, t) == default_for(d.skip(k as int), t),
                        first_route(self.rules(), ctx) is None,
                        ctx.message_type == Some(t),
                    decreases d.len() - k,
                {
                    assert(d.skip(k as int).drop_first() =~= d.skip(k + 1));
                    assert(d.skip(k as int)[0] == d[k as int]);
                    assert(d[k as int].0 == self.default_routes@[k as int].0);
                    if self.default_routes[k].0 == t {
                        assert(d[k as int].1 == dest_views(self.default_routes@[k as int].1@));
                        let active = active_destinations(&self.default_routes[k].1);
                        if active.len() > 0 {
                            return Ok(active);
                        }
                        return Err(IsoError::RoutingFailed("No route found".to_owned()));
                    }
                    k = k + 1;
                }
                Err(IsoError::RoutingFailed("No route found".to_owned()))
            },
            None => Err(IsoError::RoutingFailed("No route found".to_owned())),
        }
    }
}

/// The routing context of an ISO 8583 message: its kind from the first two
/// digits of its type indicator, the currency (field 49) and the amount
/// (field 4).
impl MessageContext {
    pub fn from_iso8583(msg: &Iso8583Message) -> (r: Self)
        requires msg@.wf(),
        ensures
            r.message_type == Some(card_message_kind(msg@.mti.code_spec())),
            text_of(r.currency) == element_text(msg@, 49),
            r.amount == (match element_text(msg@, 4) {
                Some(s) => parse_u64_spec(s, 10),
                None => None,
            }),
            r.creditor_country is None && r.debtor_country is None,
            r.creditor_bic is None && r.debtor_bic is None,
            r.creditor_iban is None && r.debtor_iban is None,
    {
        let code = msg.mti.to_code();
        let kind = if code / 256 == 1 {
            MessageType::CardAuthorization
        } else if code / 256 == 2 {
            MessageType::CardFinancial
        } else if code / 256 == 4 {
            MessageType::CardReversal
        } else {
            MessageType::CardAuthorization
        };
        MessageContext {
            message_type: Some(kind),
            currency: msg.currency_code(),
            amount: msg.amount(),
            creditor_country: None,
            debtor_country: None,
            creditor_bic: None,
            debtor_bic: None,
            creditor_iban: None,
            debtor_iban: None,
        }
    }
}

/// The routing kind of a card message type indicator.
pub open spec fn card_message_kind(code: u16) -> MessageType {
    if code / 256 == 1 {
        MessageType::CardAuthorization
    } else if code / 256 == 2 {
        MessageType::CardFinancial
    } else if code / 256 == 4 {
        MessageType::CardReversal
    } else {
        MessageType::CardAuthorization
    }
}

/// A card message is routed by the first two digits of its type
/// indicator: 01 as an authorization, 02 as a financial message, 04 as a
/// reversal, and any other as an authorization; it always gets a card kind.
pub proof fn lemma_card_message_kind(code: u16)
    ensures
        code / 256 == 1 ==> card_message_kind(code) == MessageType::CardAuthorization,
        code / 256 == 2 ==> card_message_kind(code) == MessageType::CardFinancial,
        code / 256 == 4 ==> card_message_kind(code) == MessageType::CardReversal,
        code / 256 != 2 && code / 256 != 4 ==> card_message_kind(code) == MessageType::CardAuthorization,
{
}

/// The routing kind of each card message type: authorization requests and
/// responses (and network management) route as authorizations, financial
/// requests and responses as financial messages, and reversal requests and
/// responses as reversals.
pub proof fn lemma_card_kind_of_type(t: crate::iso::iso8583::MessageType)
    ensures
        card_message_kind(t.code_spec()) == match t {
            crate::iso::iso8583::MessageType::FinancialRequest => MessageType::CardFinancial,
            crate::iso::iso8583::MessageType::FinancialResponse => MessageType::CardFinancial,
            crate::iso::iso8583::MessageType::ReversalRequest => MessageType::CardReversal,
            crate::iso::iso8583::MessageType::ReversalResponse => MessageType::CardReversal,
            _ => MessageType::CardAuthorization,
        },
{
}

impl MessageRouter {
    /// Routes an ISO 8583 message by its context.
    pub fn route_iso8583(&self, msg: &Iso8583Message) -> (r: Result<Vec<RouteDestination>, IsoError>)
        requires msg@.wf(),
        ensures
            forall|ctx: MessageContext|
                ctx.message_type == Some(card_message_kind(msg@.mti.code_spec()))
                && text_of(ctx.currency) == element_text(msg@, 49)
                && ctx.amount == (match element_text(msg@, 4) {
                    Some(s) => parse_u64_spec(s, 10),
                    None => None,
                })
                && ctx.creditor_country is None && ctx.debtor_country is None
                && ctx.creditor_bic is None && ctx.debtor_bic is None
                ==> #[trigger] route_spec(*self, &ctx) == match r {
                    Ok(d) => Some(dest_views(d@)),
                    Err(_) => None,
                },
            r matches Err(e) ==> e is RoutingFailed,
    {
        let ctx = MessageContext::from_iso8583(msg);
        let r = self.route(&ctx);
        proof {
            assert forall|c: MessageContext|
                c.message_type == Some(card_message_kind(msg@.mti.code_spec()))
                && text_of(c.currency) == element_text(msg@, 49)
                && c.amount == (match element_text(msg@, 4) {
                    Some(s) => parse_u64_spec(s, 10),
                    None => None,
                })
                && c.creditor_country is None && c.debtor_country is None
                && c.creditor_bic is None && c.debtor_bic is None
                implies #[trigger] route_spec(*self, &c) == match r {
                    Ok(d) => Some(dest_views(d@)),
                    Err(_) => None,
                } by {
                lemma_route_same_context(*self, &ctx, &c);
            }
        }
        r
    }
}

/// Routing depends on a context only through what conditions read.
proof fn lemma_route_same_context(router: MessageRouter, a: &MessageContext, b: &MessageContext)
    requires
        a.message_type == b.message_type,
        text_of(a.currency) == text_of(b.currency),
        a.amount == b.amount,
        text_of(a.creditor_country) == text_of(b.creditor_country),
        text_of(a.debtor_country) == text_of(b.debtor_country),
        text_of(a.creditor_bic) == text_of(b.creditor_bic),
    ensures
        route_spec(router, a) == route_spec(router, b),
{
    lemma_first_route_same_context(router.rules(), a, b);
}

proof fn lemma_first_route_same_context(rules: Seq<RoutingRule>, a: &MessageContext, b: &MessageContext)
    requires
        a.message_type == b.message_type,
        text_of(a.currency) == text_of(b.currency),
        a.amount == b.amount,
        text_of(a.creditor_country) == text_of(b.creditor_country),
        text_of(a.debtor_country) == text_of(b.debtor_country),
        text_of(a.creditor_bic) == text_of(b.creditor_bic),
    ensures
        first_route(rules, a) == first_route(rules, b),
    decreases rules.len(),
{
    if rules.len() > 0 {
        lemma_holds_same_context(rules[0].condition, a, b);
        lemma_first_route_same_context(rules.drop_first(), a, b);
    }
}

proof fn lemma_holds_same_context(c: RoutingCondition, a: &MessageContext, b: &MessageContext)
    requires
        a.message_type == b.message_type,
        text_of(a.currency) == text_of(b.currency),
        a.amount == b.amount,
        text_of(a.creditor_country) == text_of(b.creditor_country),
        text_of(a.debtor_country) == text_of(b.debtor_country),
        text_of(a.creditor_bic) == text_of(b.creditor_bic),
    ensures
        c.holds(a) == c.holds(b),
    decreases c,
{
    match c {
        RoutingCondition::And(x, y) => {
            lemma_holds_same_context(*x, a, b);
            lemma_holds_same_context(*y, a, b);
        },
        RoutingCondition::Or(x, y) => {
            lemma_holds_same_context(*x, a, b);
            lemma_holds_same_context(*y, a, b);
        },
        RoutingCondition::Not(x) => {
            lemma_holds_same_context(*x, a, b);
        },
        _ => {},
    }
}

/// The outcome of a compliance screening.
pub struct ComplianceResult {
    pub passed: bool,
    pub checks: Vec<ComplianceCheck>,
    pub risk_score: u8,
}

/// One check of a screening.
pub struct ComplianceCheck {
    pub name: String,
    pub passed: bool,
    pub message: Option<String>,
}

/// Screens messages against sanctioned and high-risk jurisdictions and a
/// large-amount threshold.
pub struct ComplianceChecker {
    sanctioned_countries: Vec<String>,
    high_risk_countries: Vec<String>,
    edd_threshold: u64,
}

/// The characters of each string of a list.
pub open spec fn views_of(list: Seq<String>) -> Seq<Seq<char>> {
    Seq::new(list.len(), |i: int| list[i]@)
}

/// Some string of the list has exactly the characters `c`.
pub open spec fn listed(list: Seq<Seq<char>>, c: Seq<char>) -> bool {
    exists|i: int| 0 <= i < list.len() && list[i] == c
}

/// An optional country is present and listed.
pub open spec fn country_listed(list: Seq<Seq<char>>, c: Option<String>) -> bool {
    c matches Some(s) && listed(list, s@)
}

impl ComplianceChecker {
    /// Countries under sanctions.
    pub closed spec fn sanctioned(&self) -> Seq<Seq<char>> {
        views_of(self.sanctioned_countries@)
    }

    /// Countries of high risk.
    pub closed spec fn high_risk(&self) -> Seq<Seq<char>> {
        views_of(self.high_risk_countries@)
    }

    /// Amount (in cents) from which enhanced due diligence applies.
    pub closed spec fn threshold(&self) -> u64 {
        self.edd_threshold
    }

    /// The standard lists: KP, IR, SY, CU sanctioned; AF, BY, MM, RU, VE of
    /// high risk; 1,000,000 cents as threshold.
    pub fn new() -> (r: Self)
        ensures
            r.sanctioned() == seq!["KP"@, "IR"@, "SY"@, "CU"@],
            r.high_risk() == seq!["AF"@, "BY"@, "MM"@, "RU"@, "VE"@],
            r.threshold() == 1_000_000,
    {
        let r = ComplianceChecker {
            sanctioned_countries: vec!["KP".to_owned(), "IR".to_owned(), "SY".to_owned(), "CU".to_owned()],
            high_risk_countries: vec![
                "AF".to_owned(),
                "BY".to_owned(),
                "MM".to_owned(),
                "RU".to_owned(),
                "VE".to_owned(),
            ],
            edd_threshold: 1_000_000,
        };
        assert(r.sanctioned() =~= seq!["KP"@, "IR"@, "SY"@, "CU"@]);
        assert(r.high_risk() =~= seq!["AF"@, "BY"@, "MM"@, "RU"@, "VE"@]);
        r
    }

    /// Sanctions involved in a context.
    pub open spec fn sanctions_hit(&self, ctx: &MessageContext) -> bool {
        country_listed(self.sanctioned(), ctx.debtor_country)
            || country_listed(self.sanctioned(), ctx.creditor_country)
    }

    /// A high-risk jurisdiction involved in a context.
    pub open spec fn high_risk_hit(&self, ctx: &MessageContext) -> bool {
        country_listed(self.high_risk(), ctx.debtor_country)
            || country_listed(self.high_risk(), ctx.creditor_country)
    }

    /// The amount reaches the due-diligence threshold.
    pub open spec fn large_hit(&self, ctx: &MessageContext) -> bool {
        ctx.amount matches Some(a) && a >= self.threshold()
    }

    /// The risk score of a context: 100 for sanctions, 30 more for a
    /// high-risk jurisdiction, 20 more for a large amount.
    pub open spec fn risk_of(&self, ctx: &MessageContext) -> int {
        (if self.sanctions_hit(ctx) { 100int } else { 0int })
            + (if self.high_risk_hit(ctx) { 30int } else { 0int })
            + (if self.large_hit(ctx) { 20int } else { 0int })
    }

    fn is_listed(list: &Vec<String>, c: &Option<String>) -> (r: bool)
        ensures r == country_listed(views_of(list@), *c),
    {
        match c {
            Some(s) => {
                let mut i: usize = 0;
                while i < list.len()
                    invariant
                        i <= list@.len(),
                        *c == Some(*s),
                        forall|j: int| 0 <= j < i ==> list@[j]@ != s@,
                    decreases list@.len() - i,
                {
                    if list[i] == *s {
                        assert(views_of(list@)[i as int] == s@);
                        assert(listed(views_of(list@), s@));
                        return true;
                    }
                    i = i + 1;
                }
                assert(!listed(views_of(list@), s@));
                false
            },
            None => false,
        }
    }

    /// Screens a message context.
    pub fn check(&self, ctx: &MessageContext) -> (r: ComplianceResult)
        ensures
            r.risk_score == self.risk_of(ctx),
            r.passed == (self.risk_of(ctx) < 100),
            r.passed == !self.sanctions_hit(ctx),
            r.checks@.len() == 3,
            r.checks@[0].name@ == "Sanctions Screening"@,
            r.checks@[0].passed == !self.sanctions_hit(ctx),
            r.checks@[0].message is Some == self.sanctions_hit(ctx),
            r.checks@[0].message matches Some(m) ==> m@ == "Transaction involves sanctioned jurisdiction"@,
            r.checks@[1].name@ == "High Risk Jurisdiction"@,
            r.checks@[1].passed,
            r.checks@[1].message is Some == self.high_risk_hit(ctx),
            r.checks@[1].message matches Some(m) ==> m@ == "Transaction involves high-risk jurisdiction - enhanced due diligence required"@,
            r.checks@[2].name@ == "Large Transaction"@,
            r.checks@[2].passed,
            r.checks@[2].message is Some == self.large_hit(ctx),
            r.checks@[2].message matches Some(m) ==> m@ == "Transaction exceeds $"@ + dec_digits((self.threshold() / 100) as nat)
                + " threshold - reporting required"@,
    {
        let mut checks: Vec<ComplianceCheck> = Vec::new();
        let mut risk_score: u8 = 0;
        let debtor_sanctioned = Self::is_listed(&self.sanctioned_countries, &ctx.debtor_country);
        let creditor_sanctioned = Self::is_listed(&self.sanctioned_countries, &ctx.creditor_country);
        let sanctioned = debtor_sanctioned || creditor_sanctioned;
        checks.push(ComplianceCheck {
            name: "Sanctions Screening".to_owned(),
            passed: !sanctioned,
            message: if sanctioned {
                Some("Transaction involves sanctioned jurisdiction".to_owned())
            } else {
                None
            },
        });
        if sanctioned {
            risk_score = 100;
        }
        let high_risk = Self::is_listed(&self.high_risk_countries, &ctx.debtor_country)
            || Self::is_listed(&self.high_risk_countries, &ctx.creditor_country);
        let msg1 = if high_risk {
            risk_score = risk_score + 30;
            Some("Transaction involves high-risk jurisdiction - enhanced due diligence required".to_owned())
        } else {
            None
        };
        checks.push(ComplianceCheck { name: "High Risk Jurisdiction".to_owned(), passed: true, message: msg1 });
        let large = match ctx.amount {
            Some(a) => a >= self.edd_threshold,
            None => false,
        };
        let msg2 = if large {
            risk_score = risk_score + 20;
            let mut m = "Transaction exceeds $".to_owned();
            let d = chars_to_string(u64_to_decimal(self.edd_threshold / 100).as_slice());
            m.append(d.as_str());
            m.append(" threshold - reporting required");
            Some(m)
        } else {
            None
        };
        checks.push(ComplianceCheck { name: "Large Transaction".to_owned(), passed: true, message: msg2 });
        ComplianceResult { passed: risk_score < 100, checks, risk_score }
    }
}

} // verus!
