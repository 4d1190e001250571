//! What the system firewall is told so that it follows the whitelist.

use crate::config::FirewallConfig;
use crate::text;
use vstd::prelude::*;
use vstd::string::StringExecFns;

verus! {

/// What has to be run.
#[derive(Debug)]
pub enum FirewallPlan {
    /// The firewall is not to be touched.
    Nothing,
    /// Rules that `nft -f -` is to read.
    Nft { rules: String },
    /// Argument lists of `iptables`, to be run one after the other whatever each one returns.
    Iptables { commands: Vec<Vec<String>> },
}

/// The ports in decimal.
pub open spec fn port_texts(ports: Seq<u16>) -> Seq<Seq<char>> {
    ports.map_values(|p: u16| text::decimal(p as nat))
}

/// The rule that lets one address in.
pub open spec fn nft_accept(chain: Seq<char>, ip: Seq<char>, ports: Seq<char>) -> Seq<char> {
    "add rule inet filter "@ + chain + " ip saddr "@ + ip + " tcp dport { "@ + ports
        + " } accept\n"@
}

/// The rules that let the addresses in, in order.
pub open spec fn nft_accepts(chain: Seq<char>, ips: Seq<Seq<char>>, ports: Seq<char>) -> Seq<
    char,
>
    decreases ips.len(),
{
    if ips.len() == 0 {
        Seq::empty()
    } else {
        nft_accepts(chain, ips.drop_last(), ports) + nft_accept(chain, ips.last(), ports)
    }
}

/// The chain is emptied, each address is let in on the ports, and everything else is dropped there.
pub open spec fn nft_rules(chain: Seq<char>, ips: Seq<Seq<char>>, ports: Seq<u16>) -> Seq<char> {
    let p = text::joined(port_texts(ports), ", "@);
    "flush chain inet filter "@ + chain + "\n"@ + nft_accepts(chain, ips, p)
        + "add rule inet filter "@ + chain + " tcp dport { "@ + p + " } drop\n"@
}

/// The arguments that let one address in.
pub open spec fn iptables_accept(chain: Seq<char>, ip: Seq<char>, ports: Seq<char>) -> Seq<
    Seq<char>,
> {
    seq![
        "-A"@,
        chain,
        "-s"@,
        ip,
        "-p"@,
        "tcp"@,
        "-m"@,
        "multiport"@,
        "--dports"@,
        ports,
        "-j"@,
        "ACCEPT"@,
    ]
}

/// The chain is emptied, made where it does not exist, each address is let in on the ports, and
/// everything else is dropped there.
pub open spec fn iptables_commands(
    chain: Seq<char>,
    ips: Seq<Seq<char>>,
    ports: Seq<u16>,
) -> Seq<Seq<Seq<char>>> {
    let p = text::joined(port_texts(ports), ","@);
    seq![seq!["-F"@, chain], seq!["-N"@, chain]] + ips.map_values(
        |ip: Seq<char>| iptables_accept(chain, ip, p),
    ) + seq![
        seq![
            "-A"@,
            chain,
            "-p"@,
            "tcp"@,
            "-m"@,
            "multiport"@,
            "--dports"@,
            p,
            "-j"@,
            "DROP"@,
        ],
    ]
}

/// The words of each command.
pub open spec fn command_views(commands: Seq<Vec<String>>) -> Seq<Seq<Seq<char>>> {
    commands.map_values(|c: Vec<String>| text::views(c@))
}

/// What has to be run so that exactly these addresses are let in on the ports.
pub open spec fn is_plan(
    ips: Seq<Seq<char>>,
    config: FirewallConfig,
    ports: Seq<u16>,
    r: Result<FirewallPlan, String>,
) -> bool {
    match r {
        Ok(FirewallPlan::Nothing) => !config.enabled,
        Ok(FirewallPlan::Nft { rules }) => {
            &&& config.enabled
            &&& config.backend@ == "nftables"@
            &&& rules@ == nft_rules(config.chain_name@, ips, ports)
        },
        Ok(FirewallPlan::Iptables { commands }) => {
            &&& config.enabled
            &&& config.backend@ == "iptables"@
            &&& command_views(commands@) == iptables_commands(config.chain_name@, ips, ports)
        },
        Err(e) => {
            &&& config.enabled
            &&& config.backend@ != "nftables"@
            &&& config.backend@ != "iptables"@
            &&& e@ == "Unknown firewall backend: "@ + config.backend@
        },
    }
}

fn port_list(ports: &Vec<u16>) -> (r: Vec<String>)
    ensures
        text::views(r@) == port_texts(ports@),
{
    let mut out: Vec<String> = Vec::new();
    let mut i: usize = 0;
    while i < ports.len()
        invariant
            i <= ports@.len(),
            text::views(out@) == port_texts(ports@).take(i as int),
        decreases ports@.len() - i,
    {
        let ghost before = out@;
        out.push(text::to_decimal(ports[i] as u64));
        assert(text::views(out@) =~= text::views(before).push(
            text::decimal(ports@[i as int] as nat),
        ));
        i = i + 1;
        assert(text::views(out@) =~= port_texts(ports@).take(i as int));
    }
    assert(text::views(out@) =~= port_texts(ports@));
    out
}

/// The rules for `nft`.
pub fn sync_nftables(ips: &Vec<String>, chain_name: &str, ports: &Vec<u16>) -> (rules: String)
    ensures
        rules@ == nft_rules(chain_name@, text::views(ips@), ports@),
{
    let list = port_list(ports);
    let ports_str = text::join(&list, ", ");
    let mut rules = text::concat("flush chain inet filter ", chain_name);
    rules.append("\n");
    let ghost head = rules@;
    let ghost all = text::views(ips@);
    let mut i: usize = 0;
    assert(all.take(0) =~= Seq::<Seq<char>>::empty());
    assert(head + nft_accepts(chain_name@, all.take(0), ports_str@) =~= head);
    while i < ips.len()
        invariant
            i <= ips@.len(),
            all == text::views(ips@),
            rules@ == head + nft_accepts(chain_name@, all.take(i as int), ports_str@),
        decreases ips@.len() - i,
    {
        assert(all.take(i + 1).drop_last() =~= all.take(i as int));
        let ghost before = rules@;
        rules.append("add rule inet filter ");
        rules.append(chain_name);
        rules.append(" ip saddr ");
        rules.append(ips[i].as_str());
        rules.append(" tcp dport { ");
        rules.append(ports_str.as_str());
        rules.append(" } accept\n");
        assert(rules@ =~= before + nft_accept(chain_name@, all[i as int], ports_str@));
        i = i + 1;
        assert(rules@ =~= head + nft_accepts(chain_name@, all.take(i as int), ports_str@));
    }
    assert(all.take(i as int) =~= all);
    rules.append("add rule inet filter ");
    rules.append(chain_name);
    rules.append(" tcp dport { ");
    rules.append(ports_str.as_str());
    rules.append(" } drop\n");
    rules
}

/// The commands for `iptables`.
pub fn sync_iptables(ips: &Vec<String>, chain_name: &str, ports: &Vec<u16>) -> (commands: Vec<
    Vec<String>,
>)
    ensures
        command_views(commands@) == iptables_commands(chain_name@, text::views(ips@), ports@),
{
    let list = port_list(ports);
    let ports_str = text::join(&list, ",");
    let mut commands: Vec<Vec<String>> = Vec::new();
    let flush = vec!["-F".to_string(), chain_name.to_string()];
    assert(text::views(flush@) =~= seq!["-F"@, chain_name@]);
    commands.push(flush);
    let create = vec!["-N".to_string(), chain_name.to_string()];
    assert(text::views(create@) =~= seq!["-N"@, chain_name@]);
    commands.push(create);
    let ghost head = seq![seq!["-F"@, chain_name@], seq!["-N"@, chain_name@]];
    let ghost accepts = text::views(ips@).map_values(
        |ip: Seq<char>| iptables_accept(chain_name@, ip, ports_str@),
    );
    assert(command_views(commands@) =~= head + accepts.take(0));
    let mut i: usize = 0;
    while i < ips.len()
        invariant
            i <= ips@.len(),
            accepts == text::views(ips@).map_values(
                |ip: Seq<char>| iptables_accept(chain_name@, ip, ports_str@),
            ),
            command_views(commands@) == head + accepts.take(i as int),
        decreases ips@.len() - i,
    {
        let ghost before = commands@;
        let accept = vec![
            "-A".to_string(),
            chain_name.to_string(),
            "-s".to_string(),
            ips[i].clone(),
            "-p".to_string(),
            "tcp".to_string(),
            "-m".to_string(),
            "multiport".to_string(),
            "--dports".to_string(),
            ports_str.clone(),
            "-j".to_string(),
            "ACCEPT".to_string(),
        ];
        assert(text::views(accept@) =~= iptables_accept(chain_name@, ips@[i as int]@, ports_str@));
        commands.push(accept);
        assert(command_views(commands@) =~= command_views(before).push(accepts[i as int]));
        i = i + 1;
        assert(command_views(commands@) =~= head + accepts.take(i as int));
    }
    assert(accepts.take(i as int) =~= accepts);
    let ghost before = commands@;
    let drop_rest = vec![
        "-A".to_string(),
        chain_name.to_string(),
        "-p".to_string(),
        "tcp".to_string(),
        "-m".to_string(),
        "multiport".to_string(),
        "--dports".to_string(),
        ports_str.clone(),
        "-j".to_string(),
        "DROP".to_string(),
    ];
    assert(text::views(drop_rest@) =~= seq![
        "-A"@,
        chain_name@,
        "-p"@,
        "tcp"@,
        "-m"@,
        "multiport"@,
        "--dports"@,
        ports_str@,
        "-j"@,
        "DROP"@,
    ]);
    commands.push(drop_rest);
    assert(command_views(commands@) =~= iptables_commands(
        chain_name@,
        text::views(ips@),
        ports@,
    ));
    commands
}

/// What has to be run so that exactly these addresses, given as text, are let in on the ports.
pub fn sync_firewall(ips: &Vec<String>, config: &FirewallConfig, ports: &Vec<u16>) -> (r: Result<
    FirewallPlan,
    String,
>)
    ensures
        is_plan(text::views(ips@), *config, ports@, r),
{
    proof {
        reveal_strlit("nftables");
        reveal_strlit("iptables");
        assert("nftables"@[0] != "iptables"@[0]);
    }
    if !config.enabled {
        return Ok(FirewallPlan::Nothing);
    }
    let backend = config.backend.as_str();
    let chain = config.chain_name.as_str();
    if text::str_eq(backend, "nftables") {
        Ok(FirewallPlan::Nft { rules: sync_nftables(ips, chain, ports) })
    } else if text::str_eq(backend, "iptables") {
        Ok(FirewallPlan::Iptables { commands: sync_iptables(ips, chain, ports) })
    } else {
        Err(text::concat("Unknown firewall backend: ", backend))
    }
}

/// The firewall is left alone exactly where it is not to be touched; else it is told in the words of the
/// backend that is configured, and a backend that is not known is refused.
pub proof fn law_firewall_is_told_as_configured(
    ips: Seq<Seq<char>>,
    config: FirewallConfig,
    ports: Seq<u16>,
    r: Result<FirewallPlan, String>,
)
    requires
        is_plan(ips, config, ports, r),
    ensures
        r is Ok && r->Ok_0 is Nothing <==> !config.enabled,
        r is Ok && r->Ok_0 is Nft <==> config.enabled && config.backend@ == "nftables"@,
        r is Ok && r->Ok_0 is Iptables <==> config.enabled && config.backend@ == "iptables"@,
        r is Ok && r->Ok_0 is Nft ==> r->Ok_0->rules@ == nft_rules(config.chain_name@, ips, ports),
        r is Ok && r->Ok_0 is Iptables ==> command_views(r->Ok_0->commands@) == iptables_commands(
            config.chain_name@,
            ips,
            ports,
        ),
{
    reveal_strlit("nftables");
    reveal_strlit("iptables");
    assert("nftables"@[0] != "iptables"@[0]);
}

/// `iptables` is told to empty the chain and to make it, then to let each address in, in order, and last
/// to drop what is left: all on the ports, given in decimal with commas between them.
pub proof fn law_iptables_lets_in_who_is_listed(
    chain: Seq<char>,
    ips: Seq<Seq<char>>,
    ports: Seq<u16>,
    i: int,
)
    requires
        0 <= i < ips.len(),
    ensures
        ({
            let c = iptables_commands(chain, ips, ports);
            let p = text::joined(port_texts(ports), ","@);
            let accept = c[2 + i];
            let drop_rest = c.last();
            &&& c.len() == ips.len() + 3
            &&& c[0] == seq!["-F"@, chain]
            &&& c[1] == seq!["-N"@, chain]
            &&& accept.len() == 12
            &&& accept[0] == "-A"@ && accept[1] == chain
            &&& accept[2] == "-s"@ && accept[3] == ips[i]
            &&& accept[4] == "-p"@ && accept[5] == "tcp"@
            &&& accept[8] == "--dports"@ && accept[9] == p
            &&& accept[10] == "-j"@ && accept[11] == "ACCEPT"@
            &&& drop_rest.len() == 10
            &&& drop_rest[0] == "-A"@ && drop_rest[1] == chain
            &&& drop_rest[2] == "-p"@ && drop_rest[3] == "tcp"@
            &&& drop_rest[6] == "--dports"@ && drop_rest[7] == p
            &&& drop_rest[8] == "-j"@ && drop_rest[9] == "DROP"@
        }),
{
}

/// `nft` is told to empty the chain, then to let each address in, in order, and last to drop what is
/// left: all on the ports, given in decimal with commas between them. Without addresses everything is
/// dropped.
pub proof fn law_nft_lets_in_who_is_listed(
    chain: Seq<char>,
    ips: Seq<Seq<char>>,
    ports: Seq<u16>,
    i: int,
)
    requires
        0 <= i < ips.len(),
    ensures
        ({
            let p = text::joined(port_texts(ports), ", "@);
            let first = "flush chain inet filter "@ + chain + "\n"@;
            let accept = "add rule inet filter "@ + chain + " ip saddr "@ + ips[i]
                + " tcp dport { "@ + p + " } accept\n"@;
            let last = "add rule inet filter "@ + chain + " tcp dport { "@ + p + " } drop\n"@;
            let before = nft_accepts(chain, ips.take(i), p);
            &&& nft_rules(chain, Seq::empty(), ports) == first + last
            &&& exists|rest: Seq<char>|
                nft_rules(chain, ips, ports) == #[trigger] (first + before + accept + rest) + last
        }),
{
    let p = text::joined(port_texts(ports), ", "@);
    let first = "flush chain inet filter "@ + chain + "\n"@;
    let accept = "add rule inet filter "@ + chain + " ip saddr "@ + ips[i] + " tcp dport { "@ + p
        + " } accept\n"@;
    let last = "add rule inet filter "@ + chain + " tcp dport { "@ + p + " } drop\n"@;
    let before = nft_accepts(chain, ips.take(i), p);
    assert(nft_rules(chain, Seq::empty(), ports) =~= first + last);
    let rest = lemma_accept_stands_in_its_place(chain, ips, p, i);
    assert(nft_rules(chain, ips, ports) =~= (first + before + accept + rest) + last);
}

proof fn lemma_accept_stands_in_its_place(
    chain: Seq<char>,
    ips: Seq<Seq<char>>,
    p: Seq<char>,
    i: int,
) -> (rest: Seq<char>)
    requires
        0 <= i < ips.len(),
    ensures
        nft_accepts(chain, ips, p) == nft_accepts(chain, ips.take(i), p) + nft_accept(
            chain,
            ips[i],
            p,
        ) + rest,
    decreases ips.len(),
{
    if i == ips.len() - 1 {
        assert(ips.take(i) =~= ips.drop_last());
        assert(nft_accepts(chain, ips, p) =~= nft_accepts(chain, ips.take(i), p) + nft_accept(
            chain,
            ips[i],
            p,
        ) + Seq::<char>::empty());
        Seq::empty()
    } else {
        let rest = lemma_accept_stands_in_its_place(chain, ips.drop_last(), p, i);
        assert(ips.drop_last().take(i) =~= ips.take(i));
        let more = nft_accept(chain, ips.last(), p);
        assert(nft_accepts(chain, ips, p) =~= nft_accepts(chain, ips.take(i), p) + nft_accept(
            chain,
            ips[i],
            p,
        ) + (rest + more));
        rest + more
    }
}

/// The ports are given in decimal, in order.
pub proof fn law_ports_are_given_in_decimal(ports: Seq<u16>, i: int)
    requires
        0 <= i < ports.len(),
    ensures
        port_texts(ports).len() == ports.len(),
        port_texts(ports)[i] == text::decimal(ports[i] as nat),
{
}

} // verus!
