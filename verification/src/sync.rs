use vstd::prelude::*;
use vstd::string::StringExecFns;
use crate::grants::{GrantData, PermissionGrant, view_grants};

verus! {

/// The fixed header that marks the policy file as machine-managed.
pub open spec fn spec_header() -> Seq<char> {
    "# This file is managed by permctl. Do not edit manually.\n\n"@
}

/// The header as a string.
pub fn sudoers_header() -> (r: String)
    ensures
        r@ == spec_header(),
{
    "# This file is managed by permctl. Do not edit manually.\n\n".to_owned()
}

/// The policy-file line for one active grant.
pub open spec fn render_line(g: GrantData) -> Seq<char> {
    g.username + " ALL=(ALL) NOPASSWD: "@ + g.command + "\n"@
}

/// The lines for an active-grant snapshot: one per grant, in the
/// snapshot's order.
pub open spec fn render_lines(gs: Seq<GrantData>) -> Seq<Seq<char>> {
    gs.map_values(|g: GrantData| render_line(g))
}

/// The whole policy file for an active-grant snapshot: the fixed header,
/// then one line per grant in the snapshot's order. A function of the
/// snapshot alone, so the file is deterministic for a given snapshot.
pub open spec fn render_content(gs: Seq<GrantData>) -> Seq<char>
    decreases gs.len(),
{
    if gs.len() == 0 {
        spec_header()
    } else {
        render_content(gs.drop_last()) + render_line(gs.last())
    }
}

/// Render the policy file for the given active-grant snapshot.
pub fn render_sudoers(grants: &Vec<PermissionGrant>) -> (r: String)
    ensures
        r@ == render_content(view_grants(grants@)),
{
    let ghost gs = view_grants(grants@);
    let mut out = sudoers_header();
    let n = grants.len();
    let mut i: usize = 0;
    proof {
        assert(gs.take(0) =~= Seq::<GrantData>::empty());
    }
    while i < n
        invariant
            i <= n,
            n == grants@.len(),
            gs == view_grants(grants@),
            out@ == render_content(gs.take(i as int)),
        decreases n - i,
    {
        let ghost before = out@;
        out.append(grants[i].username.as_str());
        out.append(" ALL=(ALL) NOPASSWD: ");
        out.append(grants[i].command.as_str());
        out.append("\n");
        proof {
            assert(gs.take(i as int + 1).drop_last() =~= gs.take(i as int));
            assert(gs.take(i as int + 1).last() == gs[i as int]);
            assert(out@ =~= before + render_line(gs[i as int]));
        }
        i += 1;
    }
    proof {
        assert(gs.take(n as int) =~= gs);
    }
    out
}

} // verus!
