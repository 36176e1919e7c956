//! What the caster asks of a Chromecast: which receiver application to launch,
//! the address of the audio stream, and how devices are offered for selection.
use vstd::prelude::*;
use crate::device::ChromecastDevice;
use crate::text::{all_digits, decimal, digits_value, has_prefix, lemma_decimal_injective, lemma_decimal_reads_back, push_decimal};

verus! {

/// The receiver application launched on a Chromecast.
#[derive(Clone, Copy, Debug, PartialEq, Eq, Structural)]
pub enum ReceiverApp {
    /// The audio receiver registered for speaker groups.
    CastAudioReceiver,
    /// The stock media receiver of every Chromecast.
    DefaultMediaReceiver,
}

/// Speaker groups get the audio receiver, single devices the stock one.
pub fn receiver_app(device: &ChromecastDevice) -> (app: ReceiverApp)
    ensures
        app == (if device.is_group { ReceiverApp::CastAudioReceiver } else { ReceiverApp::DefaultMediaReceiver }),
{
    if device.is_group {
        ReceiverApp::CastAudioReceiver
    } else {
        ReceiverApp::DefaultMediaReceiver
    }
}

/// The registered identifier of a custom receiver application.
pub open spec fn custom_app_id(app: ReceiverApp) -> Option<Seq<char>> {
    match app {
        ReceiverApp::CastAudioReceiver => Some("2872939A"@),
        ReceiverApp::DefaultMediaReceiver => None,
    }
}

/// The name under which a receiver application is reported.
pub open spec fn app_label(app: ReceiverApp) -> Seq<char> {
    match app {
        ReceiverApp::CastAudioReceiver => "Cast Audio Receiver"@,
        ReceiverApp::DefaultMediaReceiver => "Default Media Receiver"@,
    }
}

impl ReceiverApp {
    /// The identifier to launch a custom receiver by; `None` for the stock one.
    pub fn custom_id(&self) -> (id: Option<String>)
        ensures
            match id {
                Some(s) => custom_app_id(*self) == Some(s@),
                None => custom_app_id(*self) is None,
            },
    {
        match self {
            ReceiverApp::CastAudioReceiver => Some(String::from_str("2872939A")),
            ReceiverApp::DefaultMediaReceiver => None,
        }
    }

    /// The name under which the application is reported.
    pub fn label(&self) -> (s: String)
        ensures
            s@ == app_label(*self),
    {
        match self {
            ReceiverApp::CastAudioReceiver => String::from_str("Cast Audio Receiver"),
            ReceiverApp::DefaultMediaReceiver => String::from_str("Default Media Receiver"),
        }
    }
}

/// The address at which the audio stream is served: `http://host:port/audio`.
pub open spec fn stream_url_text(host: Seq<char>, port: u16) -> Seq<char> {
    "http://"@ + host + ":"@ + decimal(port as nat) + "/audio"@
}

/// The address of the audio stream served on `host` (an address in text form)
/// at `port`.
pub fn stream_url(host: &str, port: u16) -> (url: String)
    ensures
        url@ == stream_url_text(host@, port),
{
    let mut url = String::from_str("http://");
    url.append(host);
    url.append(":");
    push_decimal(&mut url, port as u32);
    url.append("/audio");
    url
}

/// The stream address names the port it was given: after "http://", the host
/// and ':' come the decimal digits of the port, whose value is the port, then
/// "/audio"; so two ports give two different addresses.
pub proof fn lemma_stream_url_names_port(host: Seq<char>, port: u16, other: u16)
    ensures
        ({
            let u = stream_url_text(host, port);
            let start: int = (7 + host.len() + 1) as int;
            &&& has_prefix(u, "http://"@ + host + ":"@)
            &&& u.len() >= start + 6
            &&& u.subrange(u.len() - 6, u.len() as int) == "/audio"@
            &&& all_digits(u.subrange(start, u.len() - 6))
            &&& digits_value(u.subrange(start, u.len() - 6)) == port
        }),
        port != other ==> stream_url_text(host, port) != stream_url_text(host, other),
{
    reveal_strlit("http://");
    reveal_strlit(":");
    reveal_strlit("/audio");
    let u = stream_url_text(host, port);
    let head = "http://"@ + host + ":"@;
    let d = decimal(port as nat);
    lemma_decimal_reads_back(port as nat);
    assert(head.len() == 7 + host.len() + 1);
    assert(u =~= head + d + "/audio"@);
    assert(u.subrange(0, head.len() as int) =~= head);
    assert(u.subrange(u.len() - 6, u.len() as int) =~= "/audio"@);
    assert(u.subrange(head.len() as int, u.len() - 6) =~= d);
    if port != other && u == stream_url_text(host, other) {
        let v = stream_url_text(host, other);
        let e = decimal(other as nat);
        lemma_decimal_reads_back(other as nat);
        assert(v =~= head + e + "/audio"@);
        assert(v.subrange(head.len() as int, v.len() - 6) =~= e);
        lemma_decimal_injective(port as nat, other as nat);
    }
}

/// The line offered for a device in the selection: its kind, its name, and,
/// when given, its address in brackets.
pub open spec fn option_label_text(is_group: bool, name: Seq<char>, address: Option<Seq<char>>) -> Seq<char> {
    (if is_group { "Speaker Group"@ } else { "Device"@ }) + ": "@ + name + " "@ + match address {
        Some(a) => "("@ + a + ")"@,
        None => Seq::<char>::empty(),
    }
}

/// The line offered for `device` in the selection; `address` is its address in
/// text form when it is to be shown.
pub fn option_label(device: &ChromecastDevice, address: Option<&str>) -> (label: String)
    ensures
        label@ == option_label_text(device.is_group, device.name@, match address {
            Some(a) => Some(a@),
            None => None,
        }),
{
    let mut label = if device.is_group { String::from_str("Speaker Group") } else { String::from_str("Device") };
    label.append(": ");
    label.append(device.name.as_str());
    label.append(" ");
    match address {
        Some(a) => {
            label.append("(");
            label.append(a);
            label.append(")");
        },
        None => {},
    }
    assert(label@ =~= option_label_text(device.is_group, device.name@, match address {
        Some(a) => Some(a@),
        None => None,
    }));
    label
}

/// A device is offered by its kind, whether or not its address is shown: the
/// line starts with "Speaker Group: " for a speaker group and with "Device: "
/// for a single device, followed by the device's name.
pub proof fn lemma_option_label_kind(is_group: bool, name: Seq<char>, address: Option<Seq<char>>)
    ensures
        ({
            let l = option_label_text(is_group, name, address);
            let kind = if is_group { "Speaker Group: "@ } else { "Device: "@ };
            &&& has_prefix(l, kind)
            &&& l.subrange(kind.len() as int, (kind.len() + name.len()) as int) == name
        }),
        is_group ==> !has_prefix(option_label_text(is_group, name, address), "Device: "@),
        !is_group ==> !has_prefix(option_label_text(is_group, name, address), "Speaker Group: "@),
{
    reveal_strlit("Speaker Group");
    reveal_strlit("Device");
    reveal_strlit(": ");
    reveal_strlit("Speaker Group: ");
    reveal_strlit("Device: ");
    let l = option_label_text(is_group, name, address);
    let word = if is_group { "Speaker Group"@ } else { "Device"@ };
    let kind = if is_group { "Speaker Group: "@ } else { "Device: "@ };
    assert(word + ": "@ =~= kind);
    let rest = " "@ + match address {
        Some(a) => "("@ + a + ")"@,
        None => Seq::<char>::empty(),
    };
    assert(l =~= kind + name + rest);
    assert(l.subrange(0, kind.len() as int) =~= kind);
    assert(l.subrange(kind.len() as int, (kind.len() + name.len()) as int) =~= name);
    if is_group {
        assert(l[0] == 'S');
        assert("Device: "@[0] == 'D');
    } else {
        assert(l[0] == 'D');
        assert("Speaker Group: "@[0] == 'S');
    }
}

} // verus!
