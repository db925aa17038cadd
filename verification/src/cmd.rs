//! Pieces of the command-line front end with logic of their own: building
//! `file://` URLs and the channel-backed message reader.

use vstd::prelude::*;
use vstd::string::StringExecFns;

verus! {

#[verifier::external_type_specification]
#[verifier::external_body]
pub struct ExUrl(url::Url);

/// Relies on `url::Url::parse`: parses an absolute URL from its text alone;
/// `None` when the crate rejects the text.
#[verifier::external_body]
fn parse_url(s: &str) -> (r: Option<url::Url>) {
    match url::Url::parse(s) {
        Ok(u) => Some(u),
        Err(_) => None,
    }
}

/// The text of the `file://` URL naming a file path.
pub fn file_url_text(file_name: &str) -> (r: String)
    ensures
        r@ == "file://"@ + file_name@,
{
    let mut s = String::from_str("file://");
    s.append(file_name);
    s
}

/// The URL naming an already-canonicalized absolute file path: the `file://`
/// scheme is put in front of the path text (see [`file_url_text`]) and the
/// result parsed. What the URL value holds is opaque here; `None` when the
/// URL crate rejects the text.
pub fn url(file_name: &str) -> (r: Option<url::Url>) {
    let s = file_url_text(file_name);
    parse_url(s.as_str())
}

#[verifier::external_type_specification]
#[verifier::external_body]
#[verifier::reject_recursive_types(T)]
pub struct ExReceiver<T>(std::sync::mpsc::Receiver<T>);

/// Reads server messages from the receiving end of a channel. Exclusive
/// access serializes readers.
pub struct ChannelMsgReader {
    channel: std::sync::mpsc::Receiver<String>,
}

impl ChannelMsgReader {
    pub fn new(rx: std::sync::mpsc::Receiver<String>) -> (r: ChannelMsgReader) {
        ChannelMsgReader { channel: rx }
    }

    /// Relies on `std::sync::mpsc::Receiver::recv`: blocks for the next
    /// message, `None` once every sender has disconnected. What arrives is
    /// the senders' choice, so nothing more is promised of the value.
    #[verifier::external_body]
    pub fn read_message(&mut self) -> (r: Option<String>) {
        self.channel.recv().ok()
    }
}

} // verus!
