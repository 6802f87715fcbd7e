//! Typed request and response shapes exchanged with the payment processor.
//!
//! These mirror the provider's wire shapes as plain owned data.  Monetary
//! amounts are [`LosslessNumber`] text; free-form JSON spots are
//! [`JsonValue`]; optional members that are absent are simply `None` and
//! are dropped by the canonicalizer.  The transport layer owns the wire
//! encoding and hands these to the signing engine as [`JsonValue`] trees.

use vstd::prelude::*;

use crate::json::JsonValue;
use crate::number::LosslessNumber;

verus! {

/// An authorization call: the client identifier and its request data.
#[derive(Debug)]
pub struct AuthorizationRequest {
    pub client: String,
    pub request: AuthorizationRequestData,
}

/// The body of an authorization call.
#[derive(Debug)]
pub struct AuthorizationRequestData {
    pub request_type: i32,
    pub meta_reference: String,
    pub action: i32,
    pub redirect_uri: String,
    pub optional_commerce_id: Option<i32>,
    pub client_information: ClientInformation,
    pub optional_metadata: Option<String>,
    pub limit_issuers: Option<Vec<String>>,
    pub web_form_settings: Option<JsonValue>,
    pub extendable_instrument_token: Option<String>,
    pub do_not_use_callback: Option<bool>,
    pub limit_banks: Option<Vec<String>>,
    pub promotion_info_issuers: Option<JsonValue>,
}

/// Identity of the paying client.
#[derive(Debug)]
pub struct ClientInformation {
    pub name: String,
    pub address: Option<String>,
    pub email: Option<String>,
    pub cellphone: Option<String>,
    pub identification: Option<String>,
    pub identification_type: Option<String>,
}

/// A purchase call: the client identifier and its request data.
#[derive(Debug)]
pub struct PaymentRequest {
    pub client: String,
    pub request: PaymentRequestData,
}

/// The body of a purchase call.
#[derive(Debug)]
pub struct PaymentRequestData {
    pub client_reference_id: String,
    pub currency_id: i32,
    pub financial_inclusion: FinancialInclusion,
    pub installments: i32,
    pub items: Vec<PaymentItem>,
    pub payment_instrument_input: PaymentInstrumentInput,
    pub optional_commerce_id: Option<i32>,
    pub loyalty_program_amount: Option<LosslessNumber>,
    pub optional_instrument_fields: Option<Vec<(String, String)>>,
    pub commerce_reserve_expiration_in_seconds: Option<i32>,
    pub three_ds_reference_id: Option<String>,
}

/// Tax treatment of the purchase.
#[derive(Debug)]
pub struct FinancialInclusion {
    pub billed_amount: LosslessNumber,
    pub invoice_number: Option<i32>,
    pub taxed_amount: LosslessNumber,
    pub inclusion_type: i32,
    pub vat_amount: Option<LosslessNumber>,
}

/// One purchased item.
#[derive(Debug)]
pub struct PaymentItem {
    pub amount: LosslessNumber,
    pub client_item_reference_id: String,
}

/// The instrument the purchase is charged to.
#[derive(Debug)]
pub struct PaymentInstrumentInput {
    pub instrument_token: String,
    pub use_extended_client_credit_if_available: bool,
    pub optional_fields: Option<Vec<(String, String)>>,
    pub instrument_data: Option<InstrumentData>,
}

/// Issuer details of a payment instrument, with free-form extras.
#[derive(Debug)]
pub struct InstrumentData {
    pub issuer: Option<String>,
    pub additional_data: Option<Vec<(String, JsonValue)>>,
}

/// The relay's answer to its own callers.
#[derive(Debug)]
pub struct ApiResponse<T> {
    pub success: bool,
    pub data: Option<T>,
    pub error: Option<String>,
}

} // verus!
