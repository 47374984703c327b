//! A command line, parsed.
use vstd::prelude::*;

verus! {

/// The arguments of a replay.
#[derive(Debug, Clone)]
pub struct ReplayArgs {
    /// Only these assets; none: every one that is found.
    pub asset: Vec<String>,
    pub exclude_asset: Vec<String>,
    /// Searched in order.
    pub data_dir: Vec<String>,
    /// The smallest timeframe in the data.
    pub base_interval: String,
    /// Higher timeframes to build.
    pub timeframe: Vec<String>,
    pub output: String,
    pub json_sidecar: Option<String>,
    /// The strategy file.
    pub config_strategy: Option<String>,
    /// The fill-lens file.
    pub config_fill: Option<String>,
    /// First day of the reporting window.
    pub from: Option<String>,
    /// Last day of the reporting window.
    pub to: Option<String>,
    /// Days loaded before the window only to warm the strategy.
    pub warmup_days: u32,
    pub fee_schedule: Option<String>,
    pub factory: Option<String>,
    pub roll_adjust: bool,
    /// Feed every asset through one session, in time order.
    pub streaming: bool,
}

/// What is asked for.
#[derive(Debug, Clone)]
pub enum Commands {
    /// Replay historical candles through a strategy and report.
    Replay(ReplayArgs),
}

/// A command line.
#[derive(Debug, Clone)]
pub struct Cli {
    pub command: Commands,
}

/// The replay a command line asks for.
pub fn run(cli: Cli) -> (r: ReplayArgs)
    ensures
        cli.command == Commands::Replay(r),
{
    match cli.command {
        Commands::Replay(args) => args,
    }
}

} // verus!
