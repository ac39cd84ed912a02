//! The command line: which command is asked for, whether it runs without
//! confirmation, and the options of `provision`.

use vstd::prelude::*;
use crate::request::lv_parse_text;
use crate::text::{concat3, text_eq, views};
use crate::types::{Action, Command, LvRequest, LvRequestView, SizeUnit};
use crate::units::size_parse_text;

verus! {

pub open spec fn starts_with_dash(s: Seq<char>) -> bool {
    s.len() > 0 && s[0] == '-'
}

pub open spec fn is_confirm_flag(s: Seq<char>) -> bool {
    s == "-y"@ || s == "--auto-confirm"@
}

/// The position of the command word among `args[1..]`: the first argument
/// that is no option and does not follow an option taking a value.
pub open spec fn subcommand_index(args: Seq<Seq<char>>) -> Option<int>
    decreases args.len(),
{
    if args.len() <= 1 {
        None
    } else {
        let i = args.len() - 1;
        match subcommand_index(args.drop_last()) {
            Some(k) => if args[k].len() == 0 && !starts_with_dash(args[i]) && (!starts_with_dash(args[i - 1])
                || is_confirm_flag(args[i - 1])) {
                Some(i)
            } else {
                Some(k)
            },
            None => if !starts_with_dash(args[i]) && (!starts_with_dash(args[i - 1]) || is_confirm_flag(
                args[i - 1],
            )) {
                Some(i)
            } else {
                None
            },
        }
    }
}

pub open spec fn subcommand(args: Seq<Seq<char>>) -> Seq<char> {
    match subcommand_index(args) {
        Some(k) => args[k],
        None => Seq::empty(),
    }
}

/// Whether `-y` or `--auto-confirm` appears after the program name.
pub open spec fn auto_confirm_requested(args: Seq<Seq<char>>) -> bool {
    exists|i: int| 1 <= i < args.len() && is_confirm_flag(#[trigger] args[i])
}

/// The option whose value the next argument is.
pub enum Awaiting {
    Nothing,
    Vg,
    PeSize,
    Pv,
    Lv,
}

/// The options of `provision` gathered so far.
pub struct ProvisionOptions {
    pub vg: Option<Seq<char>>,
    pub pe_size: Option<Seq<char>>,
    pub pvs: Seq<Seq<char>>,
    pub lvs: Seq<Seq<char>>,
    pub awaiting: Awaiting,
}

pub open spec fn no_options() -> ProvisionOptions {
    ProvisionOptions { vg: None, pe_size: None, pvs: Seq::empty(), lvs: Seq::empty(), awaiting: Awaiting::Nothing }
}

pub open spec fn unexpected_message(a: Seq<char>) -> Seq<char> {
    "Unexpected argument: '"@ + a + "'"@
}

/// One argument read into the options.
pub open spec fn option_step(o: ProvisionOptions, a: Seq<char>) -> Result<ProvisionOptions, Seq<char>> {
    match o.awaiting {
        Awaiting::Vg => Ok(ProvisionOptions { vg: Some(a), awaiting: Awaiting::Nothing, ..o }),
        Awaiting::PeSize => Ok(ProvisionOptions { pe_size: Some(a), awaiting: Awaiting::Nothing, ..o }),
        Awaiting::Pv => Ok(ProvisionOptions { pvs: o.pvs.push(a), awaiting: Awaiting::Nothing, ..o }),
        Awaiting::Lv => Ok(ProvisionOptions { lvs: o.lvs.push(a), awaiting: Awaiting::Nothing, ..o }),
        Awaiting::Nothing => if is_confirm_flag(a) {
            Ok(o)
        } else if a == "--vg"@ {
            Ok(ProvisionOptions { awaiting: Awaiting::Vg, ..o })
        } else if a == "--pe-size"@ {
            Ok(ProvisionOptions { awaiting: Awaiting::PeSize, ..o })
        } else if a == "--pv"@ {
            Ok(ProvisionOptions { awaiting: Awaiting::Pv, ..o })
        } else if a == "--lv"@ {
            Ok(ProvisionOptions { awaiting: Awaiting::Lv, ..o })
        } else {
            Err(unexpected_message(a))
        },
    }
}

/// The options read from `args[1..]`, leaving out the command word at
/// `skip`.
pub open spec fn options_scan(args: Seq<Seq<char>>, skip: int) -> Result<ProvisionOptions, Seq<char>>
    decreases args.len(),
{
    if args.len() <= 1 {
        Ok(no_options())
    } else {
        match options_scan(args.drop_last(), skip) {
            Err(m) => Err(m),
            Ok(o) => if args.len() - 1 == skip {
                Ok(o)
            } else {
                option_step(o, args.last())
            },
        }
    }
}

pub open spec fn default_pe_size() -> Seq<char> {
    "4M"@
}

/// The requests of the `--lv` options, in order, or the first refusal.
pub open spec fn lv_requests(texts: Seq<Seq<char>>) -> Result<Seq<LvRequestView>, Seq<char>>
    decreases texts.len(),
{
    if texts.len() == 0 {
        Ok(Seq::empty())
    } else {
        match lv_requests(texts.drop_last()) {
            Err(m) => Err(m),
            Ok(rs) => match lv_parse_text(texts.last()) {
                Err(m) => Err(m),
                Ok(r) => Ok(rs.push(r)),
            },
        }
    }
}

/// The view of a provisioning command.
pub struct ProvisionView {
    pub pvs: Seq<Seq<char>>,
    pub vg_name: Seq<char>,
    pub pe_size: SizeUnit,
    pub lvs: Seq<LvRequestView>,
}

pub open spec fn provision_view(c: Command) -> ProvisionView {
    match c {
        Command::Provision { pvs, vg_name, pe_size, lvs } => ProvisionView {
            pvs: views(pvs@),
            vg_name: vg_name@,
            pe_size,
            lvs: lvs@.map_values(|r: LvRequest| r@),
        },
    }
}

/// The `provision` command that the arguments describe: `--vg NAME`, one or
/// more `--pv PATH`, any number of `--lv name:size[:fs[:mount]]`, and
/// `--pe-size SIZE` (4M when absent).
pub open spec fn provision_from_args(args: Seq<Seq<char>>, skip: int) -> Result<ProvisionView, Seq<char>> {
    match options_scan(args, skip) {
        Err(m) => Err(m),
        Ok(o) => if !(o.awaiting is Nothing) {
            Err("Missing value for the last option"@)
        } else if o.vg is None {
            Err("Missing required option --vg"@)
        } else if o.pvs.len() == 0 {
            Err("At least one --pv is required"@)
        } else {
            match size_parse_text(
                match o.pe_size {
                    Some(p) => p,
                    None => default_pe_size(),
                },
            ) {
                Err(m) => Err(m),
                Ok(pe) => match lv_requests(o.lvs) {
                    Err(m) => Err(m),
                    Ok(rs) => Ok(ProvisionView { pvs: o.pvs, vg_name: o.vg.unwrap(), pe_size: pe, lvs: rs }),
                },
            }
        },
    }
}

pub open spec fn usage_message() -> Seq<char> {
    "Usage: lvq <command> [options]"@
}

pub open spec fn unknown_command_message(c: Seq<char>) -> Seq<char> {
    "Unknown command: "@ + c
}

fn dash_first(s: &str) -> (r: bool)
    ensures
        r == starts_with_dash(s@),
{
    s.unicode_len() > 0 && s.get_char(0) == '-'
}

fn confirm_flag(s: &str) -> (r: bool)
    ensures
        r == is_confirm_flag(s@),
{
    text_eq(s, "-y") || text_eq(s, "--auto-confirm")
}

fn lv_list(texts: &Vec<String>) -> (r: Result<Vec<LvRequest>, String>)
    ensures
        match lv_requests(views(texts@)) {
            Ok(rs) => r matches Ok(v) && v@.map_values(|x: LvRequest| x@) == rs,
            Err(m) => r matches Err(e) && e@ == m,
        },
{
    let ghost tv = views(texts@);
    let mut out: Vec<LvRequest> = Vec::new();
    let mut i: usize = 0;
    assert(tv.take(0) =~= Seq::<Seq<char>>::empty());
    assert(out@.map_values(|x: LvRequest| x@) =~= Seq::<LvRequestView>::empty());
    while i < texts.len()
        invariant
            i <= texts.len(),
            out.len() == i,
            tv == views(texts@),
            lv_requests(tv.take(i as int)) == Ok::<Seq<LvRequestView>, Seq<char>>(out@.map_values(|x: LvRequest| x@)),
        decreases texts.len() - i,
    {
        assert(tv.take(i + 1).drop_last() =~= tv.take(i as int));
        assert(tv.take(i + 1).last() == texts@[i as int]@);
        let ghost before = out@.map_values(|x: LvRequest| x@);
        match LvRequest::parse(texts[i].as_str()) {
            Ok(r) => {
                out.push(r);
                assert(out@.map_values(|x: LvRequest| x@) =~= before.push(out@[i as int]@));
            },
            Err(e) => {
                proof {
                    lemma_lv_requests_prefix(tv, i + 1);
                }
                return Err(e);
            },
        }
        i = i + 1;
    }
    assert(tv.take(texts.len() as int) =~= tv);
    Ok(out)
}

proof fn lemma_lv_requests_prefix(s: Seq<Seq<char>>, k: int)
    requires
        0 <= k <= s.len(),
        lv_requests(s.take(k)) is Err,
    ensures
        lv_requests(s) == lv_requests(s.take(k)),
    decreases s.len(),
{
    if k < s.len() {
        assert(s.drop_last().take(k) =~= s.take(k));
        lemma_lv_requests_prefix(s.drop_last(), k);
    } else {
        assert(s.take(k) =~= s);
    }
}

proof fn lemma_options_prefix(s: Seq<Seq<char>>, k: int, skip: int)
    requires
        0 <= k <= s.len(),
        options_scan(s.take(k), skip) is Err,
    ensures
        options_scan(s, skip) == options_scan(s.take(k), skip),
    decreases s.len(),
{
    if k < s.len() {
        assert(s.drop_last().take(k) =~= s.take(k));
        lemma_options_prefix(s.drop_last(), k, skip);
    } else {
        assert(s.take(k) =~= s);
    }
}

/// Reads the options of `provision` from the command line, the command word
/// standing at `skip`.
pub fn parse_provision(args: &Vec<String>, skip: usize) -> (r: Result<Command, String>)
    ensures
        match provision_from_args(views(args@), skip as int) {
            Ok(p) => r matches Ok(c) && provision_view(c) == p,
            Err(m) => r matches Err(e) && e@ == m,
        },
{
    let ghost av = views(args@);
    let mut vg: Option<String> = None;
    let mut pe: Option<String> = None;
    let mut pvs: Vec<String> = Vec::new();
    let mut lv_texts: Vec<String> = Vec::new();
    let mut awaiting: u8 = 0;
    let ghost mut o = no_options();
    let n = args.len();
    if n == 0 {
        return Err(String::from_str("Missing required option --vg"));
    }
    let mut i: usize = 1;
    assert(av.take(1).len() == 1);
    while i < n
        invariant
            n == args.len(),
            av == views(args@),
            1 <= i <= n,
            options_scan(av.take(i as int), skip as int) == Ok::<ProvisionOptions, Seq<char>>(o),
            opt_text_eq(vg, o.vg),
            opt_text_eq(pe, o.pe_size),
            views(pvs@) == o.pvs,
            views(lv_texts@) == o.lvs,
            awaiting == awaiting_code(o.awaiting),
        decreases n - i,
    {
        assert(av.take(i + 1).drop_last() =~= av.take(i as int));
        assert(av.take(i + 1).last() == args@[i as int]@);
        if i != skip {
            let a = args[i].as_str();
            let ghost before_pvs = views(pvs@);
            let ghost before_lvs = views(lv_texts@);
            if awaiting == 1 {
                vg = Some(args[i].clone());
                awaiting = 0;
            } else if awaiting == 2 {
                pe = Some(args[i].clone());
                awaiting = 0;
            } else if awaiting == 3 {
                pvs.push(args[i].clone());
                awaiting = 0;
                assert(views(pvs@) =~= before_pvs.push(a@));
            } else if awaiting == 4 {
                lv_texts.push(args[i].clone());
                awaiting = 0;
                assert(views(lv_texts@) =~= before_lvs.push(a@));
            } else if confirm_flag(a) {
            } else if text_eq(a, "--vg") {
                awaiting = 1;
            } else if text_eq(a, "--pe-size") {
                awaiting = 2;
            } else if text_eq(a, "--pv") {
                awaiting = 3;
            } else if text_eq(a, "--lv") {
                awaiting = 4;
            } else {
                proof {
                    lemma_options_prefix(av, i + 1, skip as int);
                }
                return Err(concat3("Unexpected argument: '", a, "'"));
            }
            proof {
                o = option_step(o, av[i as int])->Ok_0;
            }
        }
        i = i + 1;
    }
    assert(av.take(n as int) =~= av);
    if awaiting != 0 {
        return Err(String::from_str("Missing value for the last option"));
    }
    let vg_name = match vg {
        Some(v) => v,
        None => {
            return Err(String::from_str("Missing required option --vg"));
        },
    };
    if pvs.len() == 0 {
        return Err(String::from_str("At least one --pv is required"));
    }
    let pe_size = match &pe {
        Some(p) => SizeUnit::parse(p.as_str()),
        None => SizeUnit::parse("4M"),
    };
    let pe_size = match pe_size {
        Ok(u) => u,
        Err(e) => {
            return Err(e);
        },
    };
    let lvs = match lv_list(&lv_texts) {
        Ok(l) => l,
        Err(e) => {
            return Err(e);
        },
    };
    Ok(Command::Provision { pvs, vg_name, pe_size, lvs })
}

pub open spec fn opt_text_eq(a: Option<String>, b: Option<Seq<char>>) -> bool {
    match a {
        Some(s) => b == Some(s@),
        None => b is None,
    }
}

pub open spec fn awaiting_code(w: Awaiting) -> u8 {
    match w {
        Awaiting::Nothing => 0,
        Awaiting::Vg => 1,
        Awaiting::PeSize => 2,
        Awaiting::Pv => 3,
        Awaiting::Lv => 4,
    }
}

/// Reads the command line (`args[0]` is the program name) into an action.
pub fn parse(args: &Vec<String>) -> (r: Result<Action, String>)
    ensures
        args.len() < 2 ==> (r matches Err(e) && e@ == usage_message()),
        args.len() >= 2 && subcommand(views(args@)) != "provision"@ ==> (r matches Err(e) && e@
            == unknown_command_message(subcommand(views(args@)))),
        args.len() >= 2 && subcommand(views(args@)) == "provision"@ ==> match provision_from_args(
            views(args@),
            subcommand_index(views(args@)).unwrap(),
        ) {
            Ok(p) => r matches Ok(a) && provision_view(a.command) == p && a.auto_confirm
                == auto_confirm_requested(views(args@)),
            Err(m) => r matches Err(e) && e@ == m,
        },
{
    let ghost av = views(args@);
    if args.len() < 2 {
        return Err(String::from_str("Usage: lvq <command> [options]"));
    }
    let n = args.len();
    let mut sub: Option<usize> = None;
    let mut auto_confirm = false;
    let mut i: usize = 1;
    assert(av.take(1).len() == 1);
    while i < n
        invariant
            n == args.len(),
            n >= 2,
            av == views(args@),
            1 <= i <= n,
            sub matches Some(k) ==> subcommand_index(av.take(i as int)) == Some(k as int) && k < i,
            sub is None ==> subcommand_index(av.take(i as int)) is None,
            auto_confirm == exists|j: int| 1 <= j < i && is_confirm_flag(#[trigger] av[j]),
        decreases n - i,
    {
        let ghost pre = av.take(i as int);
        let ghost nxt = av.take(i + 1);
        assert(nxt.drop_last() =~= pre);
        assert(nxt[i as int] == av[i as int]);
        assert(nxt[i - 1] == av[i - 1]);
        let current = args[i].as_str();
        let previous = args[i - 1].as_str();
        let sub_empty = match sub {
            Some(k) => args[k].unicode_len() == 0,
            None => true,
        };
        if let Some(k) = sub {
            assert(nxt[k as int] == av[k as int]);
        }
        if sub_empty && !dash_first(current) && (!dash_first(previous) || confirm_flag(previous)) {
            sub = Some(i);
        }
        if confirm_flag(current) {
            auto_confirm = true;
        }
        i = i + 1;
    }
    assert(av.take(n as int) =~= av);
    let is_provision = match sub {
        Some(k) => text_eq(args[k].as_str(), "provision"),
        None => false,
    };
    if !is_provision {
        proof {
            reveal_strlit("provision");
            reveal_strlit("");
            assert(""@ =~= Seq::<char>::empty());
        }
        return match sub {
            Some(k) => Err(concat3("Unknown command: ", args[k].as_str(), "")),
            None => Err(concat3("Unknown command: ", "", "")),
        };
    }
    let skip = match sub {
        Some(k) => k,
        None => 0,
    };
    let command = match parse_provision(args, skip) {
        Ok(c) => c,
        Err(e) => {
            return Err(e);
        },
    };
    Ok(Action { command, auto_confirm })
}


/// One more `--lv x` at the end of a command line that reads as a
/// provisioning command adds the request that `x` denotes after the others,
/// and changes nothing else: every `--lv` option counts, in order.
pub proof fn lemma_one_more_lv(args: Seq<Seq<char>>, skip: int, x: Seq<char>)
    requires
        0 <= skip < args.len(),
        provision_from_args(args, skip) is Ok,
        lv_parse_text(x) is Ok,
    ensures
        provision_from_args(args.push("--lv"@).push(x), skip) == Ok::<ProvisionView, Seq<char>>(
            ProvisionView {
                lvs: provision_from_args(args, skip)->Ok_0.lvs.push(lv_parse_text(x)->Ok_0),
                ..provision_from_args(args, skip)->Ok_0
            },
        ),
{
    reveal_strlit("--lv");
    reveal_strlit("-y");
    reveal_strlit("--auto-confirm");
    reveal_strlit("--vg");
    reveal_strlit("--pe-size");
    reveal_strlit("--pv");
    let a1 = args.push("--lv"@);
    let a2 = a1.push(x);
    assert(a1.drop_last() =~= args);
    assert(a2.drop_last() =~= a1);
    assert(a1.last() == "--lv"@);
    assert(a2.last() == x);
    assert("--lv"@[2] == 'l' && "--vg"@[2] == 'v' && "--pv"@[2] == 'p');
    assert("--lv"@.len() == 4 && "-y"@.len() == 2 && "--pe-size"@.len() == 9 && "--auto-confirm"@.len() == 14);
    assert("--lv"@ != "-y"@ && "--lv"@ != "--auto-confirm"@ && "--lv"@ != "--vg"@);
    assert("--lv"@ != "--pe-size"@ && "--lv"@ != "--pv"@);
    let o = options_scan(args, skip)->Ok_0;
    assert(options_scan(args, skip) is Ok);
    assert(o.awaiting is Nothing);
    assert(!is_confirm_flag("--lv"@));
    assert(a1.len() - 1 != skip);
    assert(option_step(o, "--lv"@) == Ok::<ProvisionOptions, Seq<char>>(ProvisionOptions { awaiting: Awaiting::Lv, ..o }));
    assert(options_scan(a1, skip) == Ok::<ProvisionOptions, Seq<char>>(ProvisionOptions { awaiting: Awaiting::Lv, ..o }));
    assert(options_scan(a2, skip) == Ok::<ProvisionOptions, Seq<char>>(ProvisionOptions { lvs: o.lvs.push(x), ..o }));
    let rs = lv_requests(o.lvs)->Ok_0;
    assert(o.lvs.push(x).drop_last() =~= o.lvs);
    assert(o.lvs.push(x).last() == x);
    assert(lv_requests(o.lvs.push(x)) == Ok::<Seq<LvRequestView>, Seq<char>>(rs.push(lv_parse_text(x)->Ok_0)));
}


/// When the program name is no option and the first argument after it is
/// a word that is no option, that word is the command, whatever follows.
pub proof fn lemma_first_word_is_command(args: Seq<Seq<char>>)
    requires
        args.len() >= 2,
        !starts_with_dash(args[0]),
        args[1].len() > 0,
        !starts_with_dash(args[1]),
    ensures
        subcommand_index(args) == Some(1int),
        subcommand(args) == args[1],
    decreases args.len(),
{
    let p = args.drop_last();
    if args.len() > 2 {
        assert(p[0] == args[0] && p[1] == args[1]);
        lemma_first_word_is_command(p);
        assert(subcommand_index(p) == Some(1int));
        assert(args[1].len() > 0);
    } else {
        assert(p.len() == 1);
        assert(subcommand_index(p) is None);
        assert(args[args.len() - 1] == args[1]);
        assert(args[args.len() - 2] == args[0]);
    }
}

} // verus!
