//! The alert: who receives it, what it says, and in which order the
//! messages leave.

use crate::structs::Location;
use crate::text::{form_encoded, split, split_text, texts};
use vstd::pervasive::unreached;
use vstd::prelude::*;
use vstd::string::*;
use vstd::utf8::encode_utf8;

verus! {

/// The error of the `twrs_sms` crate.
#[verifier::external_type_specification]
#[verifier::external_body]
pub struct ExTwrsError(twrs_sms::TWRSError);

/// The body of the request that carries a message to the provider: its
/// three fields as name and value, form-encoded, with `&` between them.
#[verifier::opaque]
pub open spec fn twilio_line(body: Seq<char>, from: Seq<char>, to: Seq<char>) -> Seq<char> {
    "Body="@ + form_encoded(encode_utf8(body)) + "&From="@ + form_encoded(encode_utf8(from))
        + "&To="@ + form_encoded(encode_utf8(to))
}

/// Encodes a message for the SMS provider.
///
/// Trusted: `TwilioSend::encode` of `twrs_sms` on a value with the three
/// given fields. It hands the value to `serde_urlencoded::to_string`, which
/// appends each field of a struct as a pair of its name and its value to a
/// form-urlencoded serializer and, for fields that are strings, has no way
/// to fail. So the result is always the line [`twilio_line`].
#[verifier::external_body]
fn encode_message(body: &str, from: &str, to: &str) -> (r: Result<String, twrs_sms::TWRSError>)
    ensures
        r is Ok,
        r->Ok_0@ == twilio_line(body@, from@, to@),
{
    twrs_sms::TwilioSend { Body: body, From: from, To: to }.encode()
}

/// One message of an alert.
#[derive(Debug, PartialEq)]
pub struct OutgoingMessage {
    pub body: String,
    pub from: String,
    pub to: String,
}

/// What an `OutgoingMessage` holds, as mathematical text.
pub struct MessageView {
    pub body: Seq<char>,
    pub from: Seq<char>,
    pub to: Seq<char>,
}

impl View for OutgoingMessage {
    type V = MessageView;

    open spec fn view(&self) -> MessageView {
        MessageView { body: self.body@, from: self.from@, to: self.to@ }
    }
}

impl Clone for OutgoingMessage {
    fn clone(&self) -> (copy: Self)
        ensures
            copy@ == self@,
    {
        OutgoingMessage { body: self.body.clone(), from: self.from.clone(), to: self.to.clone() }
    }
}

/// The text of an alert for the office called `location_title`, which a
/// visitor books at `appointment_url`.
pub open spec fn message_text(location_title: Seq<char>, appointment_url: Seq<char>) -> Seq<char> {
    "Appointment Available!\nLocation: "@ + location_title
        + "\n\nSchedule your appointment at this url: "@ + appointment_url
        + "\n\nReply STOP to unsubscribe"@
}

/// The messages of an alert with the text `body`, sent from `from`: one for
/// each of `recipients`, in their order, all with the same text.
pub open spec fn messages_for(body: Seq<char>, from: Seq<char>, recipients: Seq<Seq<char>>) -> Seq<
    MessageView,
> {
    Seq::new(recipients.len(), |i: int| MessageView { body: body, from: from, to: recipients[i] })
}

/// The views of a list of messages, in order.
pub open spec fn message_views(messages: Seq<OutgoingMessage>) -> Seq<MessageView> {
    Seq::new(messages.len(), |i: int| messages[i]@)
}

/// What is to be done about an alert of which some messages are out.
#[derive(Debug)]
pub enum Dispatch {
    /// This message is next; `payload` is the body of the request that
    /// carries it.
    Send { message: OutgoingMessage, payload: String },
    /// Every message is out.
    Done,
}

/// The account at the SMS provider and the numbers that an alert goes to.
#[derive(Debug)]
pub struct SMS {
    target_numbers: Vec<String>,
    source_number: String,
    account_sid: String,
    account_token: String,
}

impl SMS {
    /// The numbers that an alert goes to, in order.
    pub closed spec fn recipients(&self) -> Seq<Seq<char>> {
        texts(self.target_numbers@)
    }

    /// The number that an alert comes from.
    pub closed spec fn sender(&self) -> Seq<char> {
        self.source_number@
    }

    /// The account id at the provider.
    pub closed spec fn sid(&self) -> Seq<char> {
        self.account_sid@
    }

    /// The account's secret at the provider.
    pub closed spec fn token(&self) -> Seq<char> {
        self.account_token@
    }

    /// The configuration with the recipients `to`, a list of numbers with a
    /// comma between neighbours, the sender `from` and the account `sid`
    /// with its `token`.
    pub fn new(to: &str, from: String, sid: String, token: String) -> (sms: Self)
        ensures
            sms.recipients() == split(to@, ','),
            sms.sender() == from@,
            sms.sid() == sid@,
            sms.token() == token@,
    {
        SMS {
            target_numbers: split_text(to, ','),
            source_number: from,
            account_sid: sid,
            account_token: token,
        }
    }

    /// The numbers that an alert goes to, in order.
    pub fn target_numbers(&self) -> (numbers: &Vec<String>)
        ensures
            texts(numbers@) == self.recipients(),
    {
        &self.target_numbers
    }

    /// The number that an alert comes from.
    pub fn source_number(&self) -> (number: &String)
        ensures
            number@ == self.sender(),
    {
        &self.source_number
    }

    /// The account id at the provider.
    pub fn account_sid(&self) -> (sid: &String)
        ensures
            sid@ == self.sid(),
    {
        &self.account_sid
    }

    /// The account's secret at the provider.
    pub fn account_token(&self) -> (token: &String)
        ensures
            token@ == self.token(),
    {
        &self.account_token
    }

    /// The text of an alert: the office's name, the address at which to
    /// book, and how to unsubscribe.
    pub fn create_message_body(&self, location_title: &str, appointment_url: &str) -> (body: String)
        ensures
            body@ == message_text(location_title@, appointment_url@),
    {
        String::from_str("Appointment Available!\nLocation: ").concat(location_title).concat(
            "\n\nSchedule your appointment at this url: ",
        ).concat(appointment_url).concat("\n\nReply STOP to unsubscribe")
    }

    /// One message with the text `message_body` for each recipient, in the
    /// order of the recipients.
    pub fn create_messages(&self, message_body: &str) -> (messages: Vec<OutgoingMessage>)
        ensures
            message_views(messages@) == messages_for(
                message_body@,
                self.sender(),
                self.recipients(),
            ),
    {
        let mut messages: Vec<OutgoingMessage> = Vec::new();
        let mut i: usize = 0;
        while i < self.target_numbers.len()
            invariant
                i <= self.target_numbers@.len(),
                messages@.len() == i,
                forall|k: int|
                    0 <= k < i ==> (#[trigger] messages@[k])@ == (MessageView {
                        body: message_body@,
                        from: self.source_number@,
                        to: self.target_numbers@[k]@,
                    }),
            decreases self.target_numbers@.len() - i,
        {
            messages.push(
                OutgoingMessage {
                    body: String::from_str(message_body),
                    from: self.source_number.clone(),
                    to: self.target_numbers[i].clone(),
                },
            );
            i += 1;
        }
        assert(message_views(messages@) =~= messages_for(
            message_body@,
            self.sender(),
            self.recipients(),
        ));
        messages
    }

    /// The messages that alert every recipient to a slot at `location`,
    /// which a visitor books at `appointment_url`.
    pub fn alert_receipients(&self, location: &Location, appointment_url: &str) -> (messages: Vec<
        OutgoingMessage,
    >)
        ensures
            message_views(messages@) == messages_for(
                message_text(location@.title, appointment_url@),
                self.sender(),
                self.recipients(),
            ),
    {
        let body = self.create_message_body(location.location_title.as_str(), appointment_url);
        self.create_messages(body.as_str())
    }

    /// What is to be done about the alert `twilio_sends` once the first
    /// `sent` of its messages are out: the next message with the request
    /// body that carries it, or nothing more.
    pub fn send_messages(&self, twilio_sends: &Vec<OutgoingMessage>, sent: usize) -> (r: Dispatch)
        ensures
            match r {
                Dispatch::Send { message, payload } => {
                    &&& sent < twilio_sends@.len()
                    &&& message@ == twilio_sends@[sent as int]@
                    &&& payload@ == twilio_line(message@.body, message@.from, message@.to)
                },
                Dispatch::Done => sent >= twilio_sends@.len(),
            },
    {
        if sent >= twilio_sends.len() {
            return Dispatch::Done;
        }
        let message = twilio_sends[sent].clone();
        match encode_message(message.body.as_str(), message.from.as_str(), message.to.as_str()) {
            Ok(payload) => Dispatch::Send { message, payload },
            Err(_) => unreached(),
        }
    }
}

/// The recipients are as many as a list in memory can hold.
pub proof fn lemma_recipients_bounded(sms: SMS)
    ensures
        sms.recipients().len() <= usize::MAX,
{
    assert(sms.target_numbers.len() == sms.target_numbers@.len());
}

/// An alert reaches every recipient once: it has one message for each, in
/// the order of the recipients, all with the same text and sender.
pub proof fn lemma_alert_reaches_each_recipient(
    body: Seq<char>,
    from: Seq<char>,
    recipients: Seq<Seq<char>>,
)
    ensures
        messages_for(body, from, recipients).len() == recipients.len(),
        forall|i: int|
            0 <= i < recipients.len() ==> {
                &&& (#[trigger] messages_for(body, from, recipients)[i]).to == recipients[i]
                &&& messages_for(body, from, recipients)[i].body == body
                &&& messages_for(body, from, recipients)[i].from == from
            },
{
}

} // verus!
