//! Microsoft Teams channel.
//!
//! Messages come in by polling Microsoft Graph: a channel plugin cannot host
//! an inbound HTTPS listener, so nothing is pushed to it. This library holds
//! the rules of the channel and no I/O: what to request, how to read what came
//! back, and when to do what. The program around it talks to the network, the
//! clock's sleep and the file system.
//!
//! - `credentials`, `protocol`: what is configured, and what the host exchanges
//!   with the channel.
//! - `graph`: messages, access tokens, requests to Graph and their errors.
//! - `state`: how far each channel has been read.
//! - `mentions`: whether a message is addressed to the bot.
//! - `poll_gate`: poll cycles over all channels, and what they hand out.
//! - `approval`: questions to an operator, asked and answered in the channel.
//! - `channel`: the channel as the host sees it.
//! - `retry`: backoff and `Retry-After`.
//! - `timestamp`: Graph's timestamps as Unix milliseconds.
//! - `text`, `scan`, `number`: strings as sequences of characters.
//! - `rounding`: whole numbers in double precision.
//!
//! The other modules state and prove what holds of these:
//!
//! - `delivery`, `history`, `reaching`: which messages reach the agent, how
//!   often, and what of them.
//! - `answers`, `replies`: what an operator is asked, and how an answer is read.
//! - `requests`: what goes out to Graph.
//! - `pacing`: how long a retry waits.
//! - `calendar`, `clocks`, `stamp`: days and timestamps.
//! - `wording`: text and numbers.
//! - `outcomes`: what the functions return, said of what goes in and comes out.
pub mod answers;
pub mod approval;
pub mod calendar;
pub mod channel;
pub mod clocks;
pub mod credentials;
pub mod delivery;
pub mod graph;
pub mod history;
pub mod mentions;
pub mod number;
pub mod outcomes;
pub mod pacing;
pub mod poll_gate;
pub mod protocol;
pub mod reaching;
pub mod replies;
pub mod requests;
pub mod retry;
pub mod rounding;
pub mod scan;
pub mod stamp;
pub mod state;
pub mod text;
pub mod timestamp;
pub mod wording;
