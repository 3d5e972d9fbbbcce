use nexus_chain::iso::currency::{format_amount, get_currency, get_currency_by_numeric, is_valid_currency};
use nexus_chain::iso::iso8583::{decode_field, encode_field, 
    create_auth_request, create_auth_response, parse_iso8583, serialize_iso8583, Iso8583Message, MessageType,
};
use nexus_chain::iso::message_router::{ComplianceChecker, MessageContext};
use nexus_chain::iso::validators::{
    get_card_network, validate_bic, validate_card_number, validate_iban, validate_lei, IdentifierValidator,
};
use nexus_chain::iso::IsoError;

#[test]
fn test_create_auth_request() {
    let msg = create_auth_request("4111111111111111", 10000, "840", "TERM0001", "MERCHANT001");
    assert_eq!(msg.mti, MessageType::AuthorizationRequest);
    assert_eq!(msg.pan().unwrap(), "4111111111111111");
    assert_eq!(msg.amount().unwrap(), 10000);
}

#[test]
fn test_auth_response() {
    let request = create_auth_request("4111111111111111", 10000, "840", "TERM0001", "MERCHANT001");
    let response = create_auth_response(&request, "00", "123456");
    assert_eq!(response.mti, MessageType::AuthorizationResponse);
    assert_eq!(response.response_code().unwrap(), "00");
    assert_eq!(response.authorization_code().unwrap(), "123456");
}

#[test]
fn auth_request_fields_and_bitmap() {
    let msg = create_auth_request("4111111111111111", 10000, "840", "TERM0001", "MERCHANT001");
    assert_eq!(msg.primary_bitmap, 0x7020_0400_00c0_8000);
    assert_eq!(msg.secondary_bitmap, None);
    assert_eq!(msg.get_element_string(4).unwrap(), "000000010000");
    assert_eq!(msg.processing_code().unwrap(), "000000");
    assert_eq!(msg.stan().unwrap(), "000001");
    assert_eq!(msg.pos_entry_mode().unwrap(), "012");
    assert_eq!(msg.terminal_id().unwrap(), "TERM0001");
    assert_eq!(msg.merchant_id().unwrap(), "MERCHANT001");
    assert_eq!(msg.currency_code().unwrap(), "840");
    assert!(msg.track2_data().is_none());
}

#[test]
fn iso8583_serialize_then_parse_gives_back_the_message() {
    let mut msg = Iso8583Message::new(MessageType::FinancialRequest);
    msg.set_element(2, b"4111111111111111".to_vec());
    msg.set_element(3, b"000000".to_vec());
    msg.set_element(4, b"000000012345".to_vec());
    msg.set_element(49, b"978".to_vec());
    msg.set_element(102, b"ACCOUNT-1".to_vec());
    let bytes = serialize_iso8583(&msg).unwrap();
    assert_eq!(&bytes[0..4], b"0200");
    let parsed = parse_iso8583(&bytes).unwrap();
    assert_eq!(parsed.mti, MessageType::FinancialRequest);
    assert_eq!(parsed.primary_bitmap, msg.primary_bitmap);
    assert_eq!(parsed.secondary_bitmap, msg.secondary_bitmap);
    assert_eq!(parsed.pan().unwrap(), "4111111111111111");
    assert_eq!(parsed.amount().unwrap(), 12345);
    assert_eq!(parsed.get_element(102).unwrap(), &b"ACCOUNT-1".to_vec());
}

#[test]
fn iso8583_fixed_field_is_padded_with_spaces() {
    let mut msg = Iso8583Message::new(MessageType::AuthorizationRequest);
    msg.set_element(41, b"T1".to_vec());
    let bytes = serialize_iso8583(&msg).unwrap();
    assert_eq!(&bytes[12..], b"T1      ");
}

#[test]
fn iso8583_parse_errors() {
    assert!(matches!(parse_iso8583(b"0100"), Err(IsoError::InvalidFormat(_))));
    let mut unknown = b"0999".to_vec();
    unknown.extend_from_slice(&[0u8; 8]);
    match parse_iso8583(&unknown) {
        Err(IsoError::UnknownMessageType(s)) => assert_eq!(s, "0999"),
        _ => panic!("expected an unknown message type"),
    }
    let mut short = b"0100".to_vec();
    short.extend_from_slice(&[0x40, 0, 0, 0, 0, 0, 0, 0]);
    assert!(matches!(parse_iso8583(&short), Err(IsoError::InvalidFormat(_))));
}

#[test]
fn iso8583_variable_field_too_long_is_rejected() {
    let mut msg = Iso8583Message::new(MessageType::AuthorizationRequest);
    msg.set_element(2, vec![b'1'; 20]);
    assert!(matches!(serialize_iso8583(&msg), Err(IsoError::InvalidFormat(_))));
}

#[test]
fn message_type_codes() {
    assert_eq!(MessageType::from_code(0x0410), Some(MessageType::ReversalResponse));
    assert_eq!(MessageType::from_code(0x0420), None);
    assert_eq!(MessageType::NetworkManagementRequest.to_code(), 0x0800);
}

#[test]
fn test_get_currency() {
    let usd = get_currency("USD").unwrap();
    assert_eq!(usd.numeric, "840");
    assert_eq!(usd.decimals, 2);
    let jpy = get_currency("JPY").unwrap();
    assert_eq!(jpy.decimals, 0);
}

#[test]
fn currency_lookup_by_numeric_and_case() {
    assert_eq!(get_currency("eur").unwrap().code, "EUR");
    assert_eq!(get_currency_by_numeric("392").unwrap().code, "JPY");
    assert_eq!(get_currency_by_numeric("000").unwrap().code, "XBT");
    assert!(get_currency_by_numeric("999").is_none());
    assert!(is_valid_currency("chf"));
    assert!(!is_valid_currency("XYZ"));
}

#[test]
fn test_format() {
    assert_eq!(format_amount(10050, "USD"), Some("100.50 USD".to_string()));
    assert_eq!(format_amount(1000, "JPY"), Some("1000 JPY".to_string()));
}

#[test]
fn format_negative_and_small_amounts() {
    assert_eq!(format_amount(-5, "EUR"), Some("-0.05 EUR".to_string()));
    assert_eq!(format_amount(1, "XBT"), Some("0.00000001 XBT".to_string()));
    assert_eq!(format_amount(5, "ABC"), None);
}

#[test]
fn test_valid_iban() {
    assert!(validate_iban("DE89370400440532013000").is_ok());
    assert!(validate_iban("GB82WEST12345698765432").is_ok());
    assert!(validate_iban("FR7630006000011234567890189").is_ok());
}

#[test]
fn test_invalid_iban() {
    assert!(validate_iban("DE89370400440532013001").is_err());
    assert!(validate_iban("XX89370400440532013000").is_err());
}

#[test]
fn iban_separators_and_case_are_ignored() {
    assert!(validate_iban("de89 3704 0044 0532 0130 00").is_ok());
    assert!(validate_iban("DE89-3704-0044-0532-0130-00").is_ok());
    assert!(matches!(validate_iban("DE8937040044053201300"), Err(IsoError::ValidationFailed(_))));
}

#[test]
fn test_valid_bic() {
    assert!(validate_bic("DEUTDEFF").is_ok());
    assert!(validate_bic("COBADEFFXXX").is_ok());
    assert!(validate_bic("BUKBGB22").is_ok());
}

#[test]
fn invalid_bics() {
    assert!(validate_bic("DEUTXXFF").is_err());
    assert!(validate_bic("DEUTDEF").is_err());
    assert!(validate_bic("DEU1DEFF").is_err());
}

#[test]
fn test_valid_lei() {
    assert!(validate_lei("529900W18LQJJN6SJ336").is_ok());
}

#[test]
fn invalid_leis() {
    assert!(validate_lei("529900W18LQJJN6SJ337").is_err());
    assert!(validate_lei("529911W18LQJJN6SJ336").is_err());
    assert!(validate_lei("529900W18LQJJN6SJ3").is_err());
}

#[test]
fn test_card_validation() {
    assert!(validate_card_number("4111111111111111").is_ok());
    assert!(validate_card_number("5500000000000004").is_ok());
    assert!(validate_card_number("4111111111111112").is_err());
}

#[test]
fn card_number_length_and_separators() {
    assert!(validate_card_number("4111 1111 1111 1111").is_ok());
    assert!(validate_card_number("411111111111").is_err());
}

#[test]
fn test_card_network_detection() {
    assert_eq!(get_card_network("4111111111111111"), Some("Visa"));
    assert_eq!(get_card_network("5500000000000004"), Some("Mastercard"));
    assert_eq!(get_card_network("378282246310005"), Some("American Express"));
    assert_eq!(get_card_network("6011111111111117"), Some("Discover"));
}

#[test]
fn more_card_networks() {
    assert_eq!(get_card_network("3530111333300000"), Some("JCB"));
    assert_eq!(get_card_network("30569309025904"), Some("Diners Club"));
    assert_eq!(get_card_network("6200000000000005"), Some("UnionPay"));
    assert_eq!(get_card_network("12345"), None);
    assert_eq!(get_card_network("9999999999"), None);
}

#[test]
fn identifier_validator_dispatch() {
    assert!(IdentifierValidator::validate("iban", "DE89370400440532013000").is_ok());
    assert!(IdentifierValidator::validate("SWIFT", "DEUTDEFF").is_ok());
    assert!(IdentifierValidator::validate("card", "4111111111111111").is_ok());
    assert!(matches!(IdentifierValidator::validate("SSN", "1"), Err(IsoError::UnknownMessageType(_))));
}

#[test]
fn test_compliance_checker() {
    let checker = ComplianceChecker::new();
    let ctx = MessageContext {
        debtor_country: Some("US".into()),
        creditor_country: Some("GB".into()),
        amount: Some(500_00),
        ..Default::default()
    };
    let result = checker.check(&ctx);
    assert!(result.passed);
    assert!(result.risk_score < 50);

    let ctx = MessageContext {
        debtor_country: Some("US".into()),
        creditor_country: Some("KP".into()),
        amount: Some(500_00),
        ..Default::default()
    };
    let result = checker.check(&ctx);
    assert!(!result.passed);
    assert_eq!(result.risk_score, 100);
}

#[test]
fn compliance_risk_adds_up() {
    let checker = ComplianceChecker::new();
    let ctx = MessageContext {
        debtor_country: Some("RU".into()),
        amount: Some(2_000_000),
        ..Default::default()
    };
    let result = checker.check(&ctx);
    assert!(result.passed);
    assert_eq!(result.risk_score, 50);
    assert_eq!(result.checks.len(), 3);
    assert!(result.checks[1].message.is_some());
    assert!(result.checks[2].message.is_some());
}

#[test]
fn test_create_credit_transfer() {
    let msg = nexus_chain::iso::iso20022::create_credit_transfer(
        "MSG001",
        "John Doe",
        "DE89370400440532013000",
        "COBADEFFXXX",
        "Jane Smith",
        "GB33BUKB20201555555555",
        "BUKBGB22XXX",
        "1000.00",
        "EUR",
        "Invoice 12345",
    );
    assert_eq!(msg.group_header.number_of_transactions, 1);
    assert_eq!(msg.credit_transfer_transactions.len(), 1);
    let tx = &msg.credit_transfer_transactions[0];
    assert_eq!(tx.debtor.name.as_ref().unwrap(), "John Doe");
    assert_eq!(tx.interbank_settlement_amount.value, "1000.00");
}

#[test]
fn encoded_fields_decode_back_whatever_follows() {
    let pan = b"4111111111111111";
    let mut data = encode_field(2, pan).unwrap();
    assert_eq!(&data[..2], b"16");
    data.extend_from_slice(b"trailing");
    let mut pos = 0usize;
    assert_eq!(decode_field(2, &data, &mut pos).unwrap(), pan.to_vec());
    assert_eq!(pos, 18);
    let mut fixed = encode_field(3, b"0000").unwrap();
    assert_eq!(fixed, b"0000  ".to_vec());
    fixed.push(b'x');
    let mut pos = 0usize;
    assert_eq!(decode_field(3, &fixed, &mut pos).unwrap(), b"0000  ".to_vec());
    assert_eq!(pos, 6);
    let long = vec![b'a'; 120];
    let enc = encode_field(55, &long).unwrap();
    assert_eq!(&enc[..3], b"120");
    let mut pos = 0usize;
    assert_eq!(decode_field(55, &enc, &mut pos).unwrap(), long);
}

#[test]
fn credit_transfer_times_come_from_one_instant() {
    let msg = nexus_chain::iso::iso20022::create_credit_transfer(
        "MSG002", "A", "DE89370400440532013000", "COBADEFFXXX", "B", "GB33BUKB20201555555555",
        "BUKBGB22XXX", "5.00", "EUR", "Ref",
    );
    let created = msg.group_header.creation_date_time.clone();
    let settled = msg.group_header.settlement_date.clone().unwrap();
    assert_eq!(created.len(), 19);
    assert_eq!(&created[10..11], "T");
    assert_eq!(&created[..10], settled.as_str());
    assert_eq!(&created[4..5], "-");
    assert_eq!(&created[13..14], ":");
}
