//! Command line arguments of the replay.

use crate::backtest::BacktestConfig;
use crate::backtest::FillMode;
use crate::number::Real;
use crate::parse::parsed_real;
use crate::position::text_of;
use crate::risk::RiskParams;
use crate::text::same_text;
use crate::text::texts_of;
use vstd::prelude::*;
use vstd::string::*;

verus! {

/// Equity in USDT where none is given.
pub const DEFAULT_EQUITY: u64 = 10_000;

/// What the arguments have said so far.
pub struct Said {
    pub data: Option<Seq<char>>,
    pub equity: Real,
    pub csv: Option<Seq<char>>,
    pub fill_mode: FillMode,
}

/// What holds where nothing is said.
pub open spec fn unsaid() -> Said {
    Said {
        data: None,
        equity: Real::from_u64(DEFAULT_EQUITY),
        csv: None,
        fill_mode: FillMode::Optimistic,
    }
}

/// The fill mode of a name.
pub open spec fn fill_mode_of(name: Seq<char>) -> Option<FillMode> {
    if name == "optimistic"@ {
        Some(FillMode::Optimistic)
    } else if name == "ladder"@ {
        Some(FillMode::Ladder)
    } else {
        None
    }
}

/// What arguments say: pairs of a name and a value, read from left to right, of which the last
/// one with a name counts. The first mistake is told. A request for help is told like a mistake.
pub open spec fn said(args: Seq<Seq<char>>, so_far: Said) -> Result<Said, Seq<char>>
    decreases args.len(),
{
    if args.len() == 0 {
        Ok(so_far)
    } else if args[0] == "--data"@ {
        if args.len() < 2 {
            Err("--data requires a value"@)
        } else {
            said(args.skip(2), Said { data: Some(args[1]), ..so_far })
        }
    } else if args[0] == "--equity"@ {
        if args.len() < 2 {
            Err("--equity requires a value"@)
        } else {
            match parsed_real(args[1]) {
                Some(equity) => said(args.skip(2), Said { equity, ..so_far }),
                None => Err("--equity must be a number"@),
            }
        }
    } else if args[0] == "--csv"@ {
        if args.len() < 2 {
            Err("--csv requires a value"@)
        } else {
            said(args.skip(2), Said { csv: Some(args[1]), ..so_far })
        }
    } else if args[0] == "--fill-mode"@ {
        if args.len() < 2 {
            Err("--fill-mode requires a value"@)
        } else {
            match fill_mode_of(args[1]) {
                Some(fill_mode) => said(args.skip(2), Said { fill_mode, ..so_far }),
                None => Err("--fill-mode must be 'optimistic' or 'ladder', got '"@ + args[1] + "'"@),
            }
        }
    } else if args[0] == "-h"@ || args[0] == "--help"@ {
        Err("help"@)
    } else {
        Err("unknown argument: "@ + args[0])
    }
}

/// What arguments ask for. A data directory must be among it.
pub open spec fn asked(args: Seq<Seq<char>>) -> Result<Said, Seq<char>> {
    match said(args, unsaid()) {
        Ok(s) => if s.data is None { Err("--data is required"@) } else { Ok(s) },
        Err(e) => Err(e),
    }
}

/// The value that follows a name.
fn value_after(args: &Vec<String>, i: usize, missing: &str) -> (r: Result<String, String>)
    requires
        i < args@.len(),
    ensures
        match r {
            Ok(s) => i + 1 < args@.len() && s@ == args@[i + 1]@,
            Err(e) => i + 1 == args@.len() && e@ == missing@,
        },
{
    let n: usize = args.len();
    if i + 1 < n {
        Ok(args[i + 1].clone())
    } else {
        Err(missing.to_owned())
    }
}

/// The configuration of the replay that arguments ask for.
pub fn parse_args(args: &Vec<String>) -> (r: Result<BacktestConfig, String>)
    ensures
        match (r, asked(texts_of(args@))) {
            (Ok(c), Ok(s)) => {
                &&& s.data == Some(c.data_dir@)
                &&& c.starting_equity == s.equity
                &&& c.risk_params == RiskParams::fmg_default(s.equity)
                &&& match (c.csv_output, s.csv) {
                    (Some(a), Some(b)) => a@ == b,
                    (None, None) => true,
                    _ => false,
                }
                &&& c.symbol@ == "BTC-USDT-SWAP"@
                &&& c.fill_mode == s.fill_mode
            },
            (Err(e), Err(f)) => e@ == f,
            _ => false,
        },
{
    let ghost all = texts_of(args@);
    let mut data: Option<String> = None;
    let mut equity: Real = Real::from_u64(DEFAULT_EQUITY);
    let mut csv: Option<String> = None;
    let mut fill_mode: FillMode = FillMode::Optimistic;
    let mut i: usize = 0;
    assert(all.skip(0) =~= all);
    while i < args.len()
        invariant
            i <= args@.len(),
            all == texts_of(args@),
            said(all, unsaid()) == said(
                all.skip(i as int),
                Said {
                    data: text_of(data),
                    equity,
                    csv: text_of(csv),
                    fill_mode,
                },
            ),
        decreases args@.len() - i,
    {
        let ghost rest = all.skip(i as int);
        proof {
            assert(rest[0] == args@[i as int]@);
            if i + 1 < args@.len() {
                assert(rest[1] == args@[i + 1]@);
                assert(rest.skip(2) =~= all.skip(i + 2));
            }
        }
        let name = args[i].as_str();
        if same_text(name, "--data") {
            match value_after(args, i, "--data requires a value") {
                Ok(v) => {
                    data = Some(v);
                },
                Err(e) => {
                    return Err(e);
                },
            }
        } else if same_text(name, "--equity") {
            match value_after(args, i, "--equity requires a value") {
                Ok(v) => match Real::parse(v.as_str()) {
                    Some(x) => {
                        equity = x;
                    },
                    None => {
                        return Err("--equity must be a number".to_owned());
                    },
                },
                Err(e) => {
                    return Err(e);
                },
            }
        } else if same_text(name, "--csv") {
            match value_after(args, i, "--csv requires a value") {
                Ok(v) => {
                    csv = Some(v);
                },
                Err(e) => {
                    return Err(e);
                },
            }
        } else if same_text(name, "--fill-mode") {
            match value_after(args, i, "--fill-mode requires a value") {
                Ok(v) => {
                    if same_text(v.as_str(), "optimistic") {
                        fill_mode = FillMode::Optimistic;
                    } else if same_text(v.as_str(), "ladder") {
                        fill_mode = FillMode::Ladder;
                    } else {
                        let mut e =
                            "--fill-mode must be 'optimistic' or 'ladder', got '".to_owned();
                        e.append(v.as_str());
                        e.append("'");
                        return Err(e);
                    }
                },
                Err(e) => {
                    return Err(e);
                },
            }
        } else if same_text(name, "-h") || same_text(name, "--help") {
            return Err("help".to_owned());
        } else {
            let mut e = "unknown argument: ".to_owned();
            e.append(name);
            return Err(e);
        }
        i = i + 2;
    }
    let data_dir = match data {
        Some(d) => d,
        None => {
            return Err("--data is required".to_owned());
        },
    };
    let mut config = BacktestConfig::with_defaults(data_dir, equity);
    config.csv_output = csv;
    config.fill_mode = fill_mode;
    Ok(config)
}

/// How the program ends after arguments that it cannot follow: in success only when help was
/// asked for.
pub fn exit_code(message: &str) -> (r: u8)
    ensures
        r == if message@ == "help"@ {
            0u8
        } else {
            2u8
        },
{
    if same_text(message, "help") { 0 } else { 2 }
}

} // verus!
