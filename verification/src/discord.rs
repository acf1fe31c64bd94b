//! The parts of the message that announces updates on Discord.

use crate::number::{decimal, decimal_text, write_decimal};
use rand::rngs::ThreadRng;
use rand::Rng;
use vstd::prelude::*;
use vstd::string::*;

verus! {

broadcast use vstd::string::group_string_axioms;

/// The seconds between the announcement and the restart of the server.
pub const RESTART_DELAY_SECONDS: u64 = 300;

/// The address of the webhook with the key `key`.
pub open spec fn webhook_address(key: Seq<char>) -> Seq<char> {
    "https://discord.com/api/webhooks/"@ + key
}

/// The words of the announcement for a restart at `time`, in seconds since the Unix
/// epoch.
pub open spec fn restart_notice(time: u64) -> Seq<char> {
    "<bzzt> The server is due to restart at <t:"@ + decimal(time as nat)
        + ">, the following mods have been updated: <kssht>"@
}

/// The address of the webhook with the key `key`.
pub fn webhook_url(key: &str) -> (url: String)
    ensures
        url@ == webhook_address(key@),
{
    let mut url = String::new();
    url.append("https://discord.com/api/webhooks/");
    url.append(key);
    url
}

/// The time of the restart that is announced at `now`: [`RESTART_DELAY_SECONDS`]
/// later. Both are seconds since the Unix epoch.
pub fn restart_time(now: u64) -> (time: u64)
    requires
        now + RESTART_DELAY_SECONDS <= u64::MAX,
    ensures
        time == now + RESTART_DELAY_SECONDS,
{
    now + RESTART_DELAY_SECONDS
}

/// The words of the announcement for a restart at `time`, in seconds since the Unix
/// epoch.
pub fn restart_message(time: u64) -> (words: String)
    ensures
        words@ == restart_notice(time),
{
    let mut words = String::new();
    words.append("<bzzt> The server is due to restart at <t:");
    write_decimal(time, &mut words);
    words.append(">, the following mods have been updated: <kssht>");
    words
}

/// The colour number `n` as Discord takes it in an embed: in decimal.
pub fn color_text(n: u16) -> (text: String)
    ensures
        text@ == decimal(n as nat),
{
    decimal_text(n as u64)
}

/// The random number generator of the crate `rand` that belongs to the running thread.
/// Nothing is known of what is inside.
#[verifier::external_type_specification]
#[verifier::external_body]
pub struct ExThreadRng(ThreadRng);

/// Calls `rand::thread_rng`, which hands out the random number generator of the
/// running thread. Not verified; nothing is claimed of the generator.
#[verifier::external_body]
fn thread_generator() -> ThreadRng {
    rand::thread_rng()
}

/// Calls `rand::Rng::gen` for a `u16`, which draws the next random number from `rng`.
/// Not verified; nothing is claimed of the number nor of the generator afterwards, so
/// two calls may give different numbers.
#[verifier::external_body]
fn random_u16(rng: &mut ThreadRng) -> u16 {
    rng.gen()
}

/// Gives the embeds of a message their colours, at random.
pub struct Palette {
    rng: ThreadRng,
}

impl Palette {
    /// A palette that draws on the random number generator of the running thread.
    pub fn new() -> Palette {
        Palette { rng: thread_generator() }
    }

    /// The colour of the next embed, as [`color_text`] writes it: whatever number the
    /// generator gives, it is one that fits in 16 bits, written in decimal.
    pub fn next_color(&mut self) -> (text: String)
        ensures
            exists|n: u16| text@ == decimal(n as nat),
    {
        color_text(random_u16(&mut self.rng))
    }
}

} // verus!
