use plexo_relay::canon::canonical_string;
use plexo_relay::json::JsonValue;
use plexo_relay::models::{FinancialInclusion, PaymentItem, PaymentRequest, PaymentRequestData};
use plexo_relay::models::{ClientInformation, PaymentInstrumentInput};
use plexo_relay::number::LosslessNumber;

fn sample_payment() -> PaymentRequest {
    PaymentRequest {
        client: "shop".to_string(),
        request: PaymentRequestData {
            client_reference_id: "ref-1".to_string(),
            currency_id: 858,
            financial_inclusion: FinancialInclusion {
                billed_amount: LosslessNumber::new("131".to_string()),
                invoice_number: None,
                taxed_amount: LosslessNumber::new("12.3".to_string()),
                inclusion_type: 1,
                vat_amount: None,
            },
            installments: 1,
            items: vec![PaymentItem {
                amount: LosslessNumber::new("12.3456".to_string()),
                client_item_reference_id: "item-1".to_string(),
            }],
            payment_instrument_input: PaymentInstrumentInput {
                instrument_token: "tok".to_string(),
                use_extended_client_credit_if_available: false,
                optional_fields: None,
                instrument_data: None,
            },
            optional_commerce_id: None,
            loyalty_program_amount: None,
            optional_instrument_fields: None,
            commerce_reserve_expiration_in_seconds: None,
            three_ds_reference_id: None,
        },
    }
}

#[test]
fn payment_amounts_format_for_the_provider() {
    let p = sample_payment();
    assert_eq!(p.request.financial_inclusion.billed_amount.format_for_json(), "131.0");
    assert_eq!(p.request.financial_inclusion.taxed_amount.format_for_json(), "12.30");
    assert_eq!(p.request.items[0].amount.format_for_json(), "12.34");
}

#[test]
fn payment_payload_canonicalizes_with_sorted_keys() {
    let p = sample_payment();
    let payload = JsonValue::Obj(vec![
        ("Client".to_string(), JsonValue::Text(p.client.clone())),
        (
            "Request".to_string(),
            JsonValue::Obj(vec![
                (
                    "Items".to_string(),
                    JsonValue::Arr(vec![JsonValue::Obj(vec![
                        (
                            "Amount".to_string(),
                            JsonValue::Num(p.request.items[0].amount.format_for_json()),
                        ),
                        (
                            "ClientItemReferenceId".to_string(),
                            JsonValue::Text(p.request.items[0].client_item_reference_id.clone()),
                        ),
                    ])]),
                ),
                (
                    "BilledAmount".to_string(),
                    JsonValue::Num(p.request.financial_inclusion.billed_amount.format_for_json()),
                ),
                ("VATAmount".to_string(), JsonValue::Null),
            ]),
        ),
    ]);
    assert_eq!(
        canonical_string(&payload),
        "{\"Client\":\"shop\",\"Request\":{\"BilledAmount\":131.0,\
         \"Items\":[{\"Amount\":12.34,\"ClientItemReferenceId\":\"item-1\"}]}}"
    );
}

#[test]
fn client_information_holds_optional_contact_fields() {
    let ci = ClientInformation {
        name: "Ada".to_string(),
        address: None,
        email: Some("ada@example.com".to_string()),
        cellphone: None,
        identification: None,
        identification_type: None,
    };
    assert_eq!(ci.name, "Ada");
    assert!(ci.address.is_none());
    assert_eq!(ci.email.as_deref(), Some("ada@example.com"));
}
