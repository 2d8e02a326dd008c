//! The decision controller.
//!
//! One batch run takes the unresolved pairs the sequence view returned,
//! classifies each observed set against the secret target set, and decides
//! the side effects: authorize the source into every security group of the
//! instance it probed (single host, TCP port 22) when the sets match, deny
//! the source for good when a match has become impossible, and do nothing
//! while the observed set is still a proper subset.  The decisions come
//! back as a plan of actions; performing them (group mutation, deny
//! insert, logging) is the callers' I/O.

use vstd::prelude::*;
use vstd::utf8::encode_utf8;

use crate::conns_text::parse_conns;
use crate::conns_text::spec_parse_conns;
use crate::deny::DenyStore;
use crate::directory::Directory;
use crate::directory::InstanceInfoView;
use crate::knock::classify;
use crate::knock::spec_classify;
use crate::knock::Conns;
use crate::knock::InetProto;
use crate::knock::Outcome;
use crate::net::IpNet;

verus! {

/// One unresolved (source, destination) pair as the sequence view returns
/// it: the distinct observed (protocol, port) pairs stand in `conns` in
/// their textual encoding.
pub struct ViewToCheck {
    pub src_ip: IpNet,
    pub dst_ip: IpNet,
    pub conns: String,
}

/// The mathematical content of a `ViewToCheck`.
pub struct ViewToCheckView {
    pub src_ip: IpNet,
    pub dst_ip: IpNet,
    pub conns: Seq<char>,
}

impl View for ViewToCheck {
    type V = ViewToCheckView;

    open spec fn view(&self) -> ViewToCheckView {
        ViewToCheckView { src_ip: self.src_ip, dst_ip: self.dst_ip, conns: self.conns@ }
    }
}

impl DeepView for ViewToCheck {
    type V = ViewToCheckView;

    open spec fn deep_view(&self) -> ViewToCheckView {
        self.view()
    }
}

/// One side effect the controller has decided on.
#[derive(Debug, PartialEq, Eq)]
pub enum Action {
    /// Authorize the source address into one security group: a single
    /// host, one protocol, one port.
    Allow { ip: IpNet, proto: InetProto, port: u16, group_id: String },
    /// Record the source address in the deny store.
    Deny { ip: IpNet },
    /// The observed sets match but the directory knows nothing of the
    /// address: log a warning and leave the pair unresolved.
    WarnUnknownIp { ip: IpNet },
    /// The row's text is not a well-formed encoding: log a warning and
    /// leave the row alone.
    WarnBadConns { ip: IpNet },
}

/// The mathematical content of an `Action`.
pub enum ActionView {
    Allow { ip: IpNet, proto: InetProto, port: u16, group_id: Seq<char> },
    Deny { ip: IpNet },
    WarnUnknownIp { ip: IpNet },
    WarnBadConns { ip: IpNet },
}

impl View for Action {
    type V = ActionView;

    open spec fn view(&self) -> ActionView {
        match self {
            Action::Allow { ip, proto, port, group_id } => ActionView::Allow {
                ip: *ip,
                proto: *proto,
                port: *port,
                group_id: group_id@,
            },
            Action::Deny { ip } => ActionView::Deny { ip: *ip },
            Action::WarnUnknownIp { ip } => ActionView::WarnUnknownIp { ip: *ip },
            Action::WarnBadConns { ip } => ActionView::WarnBadConns { ip: *ip },
        }
    }
}

impl DeepView for Action {
    type V = ActionView;

    open spec fn deep_view(&self) -> ActionView {
        self.view()
    }
}

/// The address an action concerns.
pub open spec fn action_ip(a: ActionView) -> IpNet {
    match a {
        ActionView::Allow { ip, .. } => ip,
        ActionView::Deny { ip } => ip,
        ActionView::WarnUnknownIp { ip } => ip,
        ActionView::WarnBadConns { ip } => ip,
    }
}

/// The authorization calls for a matched source: one per security group of
/// the instance it probed, each a single host on TCP port 22.
pub open spec fn spec_allow_actions(ip: IpNet, idents: Seq<Seq<char>>) -> Seq<ActionView> {
    Seq::new(
        idents.len(),
        |k: int|
            ActionView::Allow { ip, proto: InetProto::Tcp, port: 22u16, group_id: idents[k] },
    )
}

/// The actions one row gives rise to: a warning when its text cannot be
/// read; otherwise, by classification, the per-group authorizations (or an
/// unknown-address warning) on a match, one deny when matching has become
/// impossible, and nothing while the pair is still pending.
pub open spec fn spec_row_actions(
    row: ViewToCheckView,
    target: Set<(InetProto, u16)>,
    dir: Map<IpNet, InstanceInfoView>,
) -> Seq<ActionView> {
    match spec_parse_conns(encode_utf8(row.conns)) {
        Option::None => seq![ActionView::WarnBadConns { ip: row.src_ip }],
        Option::Some(pairs) => match spec_classify(pairs.to_set(), target) {
            Outcome::Matched => if dir.contains_key(row.src_ip) {
                spec_allow_actions(row.src_ip, dir[row.src_ip].idents)
            } else {
                seq![ActionView::WarnUnknownIp { ip: row.src_ip }]
            },
            Outcome::Impossible => seq![ActionView::Deny { ip: row.src_ip }],
            Outcome::Pending => Seq::empty(),
        },
    }
}

/// The whole batch's plan: the rows' actions in row order.
pub open spec fn spec_run_checks(
    rows: Seq<ViewToCheckView>,
    target: Set<(InetProto, u16)>,
    dir: Map<IpNet, InstanceInfoView>,
) -> Seq<ActionView>
    decreases rows.len(),
{
    if rows.len() == 0 {
        Seq::empty()
    } else {
        spec_run_checks(rows.drop_last(), target, dir) + spec_row_actions(rows.last(), target, dir)
    }
}

/// Decide the side effects for one unresolved pair.
pub fn plan_row(row: &ViewToCheck, target: &Conns, dir: &Directory) -> (r: Vec<Action>)
    ensures
        r.deep_view() == spec_row_actions(row@, target.knock_set(), dir.as_map()),
{
    let mut out: Vec<Action> = Vec::new();
    match parse_conns(row.conns.as_str()) {
        Option::None => {
            out.push(Action::WarnBadConns { ip: row.src_ip });
            proof {
                assert(out.deep_view() =~= spec_row_actions(
                    row@,
                    target.knock_set(),
                    dir.as_map(),
                ));
            }
        },
        Option::Some(observed) => {
            match classify(&observed, target) {
                Outcome::Impossible => {
                    out.push(Action::Deny { ip: row.src_ip });
                    proof {
                        assert(out.deep_view() =~= spec_row_actions(
                            row@,
                            target.knock_set(),
                            dir.as_map(),
                        ));
                    }
                },
                Outcome::Pending => {
                    proof {
                        assert(out.deep_view() =~= spec_row_actions(
                            row@,
                            target.knock_set(),
                            dir.as_map(),
                        ));
                    }
                },
                Outcome::Matched => {
                    match dir.lookup(row.src_ip) {
                        Option::None => {
                            out.push(Action::WarnUnknownIp { ip: row.src_ip });
                            proof {
                                assert(out.deep_view() =~= spec_row_actions(
                                    row@,
                                    target.knock_set(),
                                    dir.as_map(),
                                ));
                            }
                        },
                        Option::Some(info) => {
                            let ghost idents = dir.as_map()[row@.src_ip].idents;
                            let mut g: usize = 0;
                            while g < info.idents.len()
                                invariant
                                    0 <= g <= info.idents@.len(),
                                    info@ == dir.as_map()[row@.src_ip],
                                    idents == info@.idents,
                                    idents.len() == info.idents@.len(),
                                    out@.len() == g,
                                    forall|k: int|
                                        0 <= k < g ==> out@[k]@ == #[trigger] spec_allow_actions(
                                            row@.src_ip,
                                            idents,
                                        )[k],
                                decreases info.idents@.len() - g,
                            {
                                out.push(
                                    Action::Allow {
                                        ip: row.src_ip,
                                        proto: InetProto::Tcp,
                                        port: 22,
                                        group_id: info.idents[g].clone(),
                                    },
                                );
                                proof {
                                    assert(info.idents.deep_view()[g as int] == info.idents@[
                                        g as int]@);
                                }
                                g += 1;
                            }
                            proof {
                                assert forall|k: int| 0 <= k < out@.len() implies out.deep_view()[k]
                                    == spec_allow_actions(row@.src_ip, idents)[k] by {
                                    assert(out.deep_view()[k] == out@[k]@);
                                }
                                assert(out.deep_view() =~= spec_allow_actions(
                                    row@.src_ip,
                                    idents,
                                ));
                            }
                        },
                    }
                },
            }
        },
    }
    out
}

/// One batch run: decide the side effects for every unresolved pair the
/// sequence view returned, in row order.
pub fn run_checks(rows: &Vec<ViewToCheck>, target: &Conns, dir: &Directory) -> (r: Vec<Action>)
    ensures
        r.deep_view() == spec_run_checks(rows.deep_view(), target.knock_set(), dir.as_map()),
{
    let mut out: Vec<Action> = Vec::new();
    let mut i: usize = 0;
    while i < rows.len()
        invariant
            0 <= i <= rows@.len(),
            rows.deep_view().len() == rows@.len(),
            forall|k: int| 0 <= k < rows@.len() ==> rows.deep_view()[k] == #[trigger] rows@[k]@,
            out.deep_view() =~= spec_run_checks(
                rows.deep_view().take(i as int),
                target.knock_set(),
                dir.as_map(),
            ),
        decreases rows@.len() - i,
    {
        let ghost out_before = out.deep_view();
        let mut acts = plan_row(&rows[i], target, dir);
        let ghost acts_view = acts.deep_view();
        out.append(&mut acts);
        proof {
            assert forall|k: int| 0 <= k < out@.len() implies out.deep_view()[k] == (out_before
                + acts_view)[k] by {
                assert(out.deep_view()[k] == out@[k]@);
            }
            assert(out.deep_view() =~= out_before + acts_view);
            let taken = rows.deep_view().take(i + 1);
            assert(taken.drop_last() =~= rows.deep_view().take(i as int));
            assert(taken.last() == rows@[i as int]@);
        }
        i += 1;
    }
    proof {
        assert(rows.deep_view().take(rows@.len() as int) =~= rows.deep_view());
    }
    out
}

/// The denied addresses after a plan's deny actions are applied.
pub open spec fn spec_denied_after(actions: Seq<ActionView>, before: Set<IpNet>) -> Set<IpNet>
    decreases actions.len(),
{
    if actions.len() == 0 {
        before
    } else {
        let rest = spec_denied_after(actions.drop_last(), before);
        match actions.last() {
            ActionView::Deny { ip } => rest.insert(ip),
            _ => rest,
        }
    }
}

/// Carry out a plan's deny actions on the deny store.  Denying an address
/// the store already holds is a no-op, so repeating a plan, or overlapping
/// plans of two runs, leave the same records as one application.
pub fn apply_denies(store: &mut DenyStore, actions: &Vec<Action>)
    requires
        old(store).wf(),
    ensures
        final(store).wf(),
        final(store).denied() == spec_denied_after(actions.deep_view(), old(store).denied()),
{
    let mut i: usize = 0;
    while i < actions.len()
        invariant
            0 <= i <= actions@.len(),
            actions.deep_view().len() == actions@.len(),
            forall|k: int|
                0 <= k < actions@.len() ==> actions.deep_view()[k] == #[trigger] actions@[k]@,
            store.wf(),
            store.denied() == spec_denied_after(
                actions.deep_view().take(i as int),
                old(store).denied(),
            ),
        decreases actions@.len() - i,
    {
        match &actions[i] {
            Action::Deny { ip } => {
                store.deny(*ip);
            },
            _ => {},
        }
        proof {
            assert(actions.deep_view().take(i + 1).drop_last() =~= actions.deep_view().take(
                i as int,
            ));
            assert(actions.deep_view().take(i + 1).last() == actions@[i as int]@);
        }
        i += 1;
    }
    proof {
        assert(actions.deep_view().take(actions@.len() as int) =~= actions.deep_view());
    }
}

/// Every action of a row's plan names that row's source address.
pub proof fn lemma_row_actions_name_source(
    row: ViewToCheckView,
    target: Set<(InetProto, u16)>,
    dir: Map<IpNet, InstanceInfoView>,
)
    ensures
        forall|k: int|
            0 <= k < spec_row_actions(row, target, dir).len() ==> action_ip(
                #[trigger] spec_row_actions(row, target, dir)[k],
            ) == row.src_ip,
{
}

/// Every action of a batch plan names the source address of one of the
/// rows the view returned.
pub proof fn lemma_plan_names_row_sources(
    rows: Seq<ViewToCheckView>,
    target: Set<(InetProto, u16)>,
    dir: Map<IpNet, InstanceInfoView>,
)
    ensures
        forall|k: int|
            0 <= k < spec_run_checks(rows, target, dir).len() ==> exists|j: int|
                0 <= j < rows.len() && action_ip(#[trigger] spec_run_checks(rows, target, dir)[k])
                    == rows[j].src_ip,
    decreases rows.len(),
{
    if rows.len() > 0 {
        lemma_plan_names_row_sources(rows.drop_last(), target, dir);
        lemma_row_actions_name_source(rows.last(), target, dir);
        let plan = spec_run_checks(rows, target, dir);
        let front = spec_run_checks(rows.drop_last(), target, dir);
        let tail = spec_row_actions(rows.last(), target, dir);
        assert forall|k: int| 0 <= k < plan.len() implies exists|j: int|
            0 <= j < rows.len() && action_ip(#[trigger] plan[k]) == rows[j].src_ip by {
            if k < front.len() {
                let j = choose|j: int| 0 <= j < rows.drop_last().len() && action_ip(front[k])
                    == rows.drop_last()[j].src_ip;
                assert(rows[j].src_ip == rows.drop_last()[j].src_ip);
                assert(action_ip(plan[k]) == rows[j].src_ip);
            } else {
                assert(plan[k] == tail[k - front.len()]);
                assert(action_ip(plan[k]) == rows.last().src_ip);
                assert(rows[rows.len() - 1].src_ip == rows.last().src_ip);
            }
        }
    }
}

/// A resolved source the sequence view no longer returns gets no further
/// work of any kind: no action of the plan names it.
pub proof fn lemma_resolved_sources_untouched(
    rows: Seq<ViewToCheckView>,
    target: Set<(InetProto, u16)>,
    dir: Map<IpNet, InstanceInfoView>,
    resolved: Set<IpNet>,
)
    requires
        forall|j: int| 0 <= j < rows.len() ==> !resolved.contains(#[trigger] rows[j].src_ip),
    ensures
        forall|k: int|
            0 <= k < spec_run_checks(rows, target, dir).len() ==> !resolved.contains(action_ip(
                #[trigger] spec_run_checks(rows, target, dir)[k],
            )),
{
    lemma_plan_names_row_sources(rows, target, dir);
}

} // verus!
