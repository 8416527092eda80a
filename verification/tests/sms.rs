use dmv_api::sms::{Dispatch, OutgoingMessage, SMS};
use dmv_api::structs::Location;
use dmv_api::text::split_text;

fn sms_client() -> SMS {
    SMS::new(
        "1_8488888888,1_8489999999,1_8480000000",
        String::from("1_8481111111"),
        String::from("00000000000000000000000000000"),
        String::from("aaaaaaaaaaaaaaaaaaaaaaaaaaaa"),
    )
}

fn freehold() -> Location {
    Location {
        location_id: String::from("197"),
        location_title: String::from("Freehold"),
        location_street: String::from("811 Okerson Road"),
        location_town: String::from("Freehold"),
        location_zip: String::from("07728"),
    }
}

#[test]
fn it_creates_an_sms_client() {
    sms_client();
}

#[test]
fn it_parses_env_variables() {
    let expected = vec!["1_8488888888", "1_8489999999", "1_8480000000"];

    let sms_client = sms_client();
    assert_eq!(sms_client.target_numbers(), &expected);
    assert_eq!(sms_client.source_number(), "1_8481111111");
    assert_eq!(sms_client.account_sid(), "00000000000000000000000000000");
    assert_eq!(sms_client.account_token(), "aaaaaaaaaaaaaaaaaaaaaaaaaaaa");
}

#[test]
fn it_creates_twilio_sends_for_all_numbers() {
    let sms_client = sms_client();
    let test_location = freehold();
    let apt_url = String::from("https://telegov.njportal.com/njmvc/AppointmentWizard/15/")
        + &test_location.location_id;
    let msg_body = sms_client.create_message_body(&test_location.location_title, &apt_url);

    let result = sms_client.create_messages(&msg_body);
    assert_eq!("1_8488888888", result[0].to);
    assert_eq!("1_8489999999", result[1].to);
    assert_eq!("1_8480000000", result[2].to);
}

#[test]
fn the_message_body_is_written_out() {
    let body = sms_client().create_message_body(
        "Freehold",
        "https://telegov.njportal.com/njmvc/AppointmentWizard/15/197",
    );
    assert_eq!(
        body,
        "Appointment Available!\nLocation: Freehold\n\nSchedule your appointment at this url: https://telegov.njportal.com/njmvc/AppointmentWizard/15/197\n\nReply STOP to unsubscribe"
    );
}

#[test]
fn an_alert_has_one_message_for_each_recipient() {
    let sms_client = sms_client();
    let url = "https://telegov.njportal.com/njmvc/AppointmentWizard/15/197";
    let messages = sms_client.alert_receipients(&freehold(), url);
    let body = sms_client.create_message_body("Freehold", url);
    assert_eq!(messages.len(), 3);
    let numbers = ["1_8488888888", "1_8489999999", "1_8480000000"];
    for (message, number) in messages.iter().zip(numbers.iter()) {
        assert_eq!(message.to, *number);
        assert_eq!(message.from, "1_8481111111");
        assert_eq!(message.body, body);
    }
    assert_eq!(messages[1].clone(), messages[1]);
}

#[test]
fn messages_leave_in_order_and_then_no_more() {
    let sms_client = sms_client();
    let messages = sms_client.create_messages("Hello, world!");
    for sent in 0..3 {
        match sms_client.send_messages(&messages, sent) {
            Dispatch::Send { message, payload } => {
                assert_eq!(message, messages[sent]);
                assert_eq!(
                    payload,
                    format!("Body=Hello%2C+world%21&From=1_8481111111&To={}", message.to)
                );
            }
            Dispatch::Done => panic!("a message is left"),
        }
    }
    assert!(matches!(
        sms_client.send_messages(&messages, 3),
        Dispatch::Done
    ));
    assert!(matches!(
        sms_client.send_messages(&messages, usize::MAX),
        Dispatch::Done
    ));
}

#[test]
fn the_request_body_is_url_encoded() {
    let sms_client = SMS::new(
        "+10987654321",
        String::from("+11234567890"),
        String::from("sid"),
        String::from("token"),
    );
    let messages = vec![OutgoingMessage {
        body: String::from("Hello, world!"),
        from: String::from("+11234567890"),
        to: String::from("+10987654321"),
    }];
    match sms_client.send_messages(&messages, 0) {
        Dispatch::Send { message, payload } => {
            assert_eq!(message, messages[0]);
            assert_eq!(
                payload,
                "Body=Hello%2C+world%21&From=%2B11234567890&To=%2B10987654321"
            );
        }
        Dispatch::Done => panic!("a message is left"),
    }
}

#[test]
fn every_text_can_be_encoded() {
    let sms_client = sms_client();
    let messages = vec![OutgoingMessage {
        body: String::from("a b&c=d\n/é%+*"),
        from: String::new(),
        to: String::from("~"),
    }];
    match sms_client.send_messages(&messages, 0) {
        Dispatch::Send { payload, .. } => {
            assert_eq!(payload, "Body=a+b%26c%3Dd%0A%2F%C3%A9%25%2B*&From=&To=%7E");
        }
        Dispatch::Done => panic!("a message is left"),
    }
}

#[test]
fn recipients_are_cut_at_commas() {
    assert_eq!(split_text("a,b", ','), vec!["a", "b"]);
    assert_eq!(split_text("", ','), vec![""]);
    assert_eq!(split_text("a,", ','), vec!["a", ""]);
    assert_eq!(split_text(",", ','), vec!["", ""]);
    assert_eq!(split_text(",a,,b", ','), vec!["", "a", "", "b"]);
    assert_eq!(split_text("+1 845,é", ','), vec!["+1 845", "é"]);
    assert_eq!(split_text("no comma", ','), vec!["no comma"]);
}

#[test]
fn a_single_recipient_is_one_number() {
    let sms_client = SMS::new(
        "1_8488888888",
        String::from("1_8481111111"),
        String::new(),
        String::new(),
    );
    assert_eq!(sms_client.target_numbers(), &vec!["1_8488888888"]);
    assert_eq!(sms_client.create_messages("x").len(), 1);
}
