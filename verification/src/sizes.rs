//! How long records are. A table stores the length of a record in 32
//! bits, so an operation refuses to write a record of more bytes than
//! that; the laws here show that no record of ordinary size is refused.

use vstd::prelude::*;
use vstd::bytes::*;
use vstd::utf8::*;
use crate::codec::{enc_items, lemma_bytes_enc_len, Persist};
use crate::principal::{Principal, MAX_PRINCIPAL_LENGTH};
use crate::records::{Agreement, AgreementView, User, UserView, Vehicle, VehicleView};
use crate::rules::storable;
use crate::telemetry::{
    AccumulatedTelemetryMonthy, AccumulatedTelemetryYearly, DayTotal, MonthView, Sample, YearView,
};

verus! {

/// A run of models whose encodings are each at most `each` bytes long is
/// written in at most `each` bytes for each of them.
pub proof fn lemma_items_size<T: Persist>(s: Seq<T::Model>, each: nat)
    requires
        forall|i: int| 0 <= i < s.len() ==> T::enc(#[trigger] s[i]).len() <= each,
    ensures
        enc_items::<T>(s).len() <= each * s.len(),
    decreases s.len(),
{
    if s.len() > 0 {
        let tail = s.drop_first();
        assert forall|i: int| 0 <= i < tail.len() implies T::enc(#[trigger] tail[i]).len()
            <= each by {
            assert(tail[i] == s[i + 1]);
        }
        lemma_items_size::<T>(tail, each);
        assert(each * tail.len() + each == each * s.len()) by (nonlinear_arith)
            requires
                tail.len() + 1 == s.len(),
        ;
    }
}

/// A list is written as its length, in eight bytes, and its members.
pub proof fn lemma_list_size<T: Persist>(s: Seq<T::Model>, each: nat)
    requires
        forall|i: int| 0 <= i < s.len() ==> T::enc(#[trigger] s[i]).len() <= each,
    ensures
        <Vec<T>>::enc(s).len() <= 8 + each * s.len(),
{
    lemma_auto_spec_u64_to_from_le_bytes();
    lemma_items_size::<T>(s, each);
}

/// A text is written in at most four bytes for each of its characters.
pub proof fn lemma_utf8_size(text: Seq<char>)
    ensures
        encode_utf8(text).len() <= 4 * text.len(),
    decreases text.len(),
{
    if text.len() > 0 {
        lemma_utf8_size(text.drop_first());
    }
}

/// A text is written as the list of its bytes.
pub proof fn lemma_text_size(text: Seq<char>)
    ensures
        String::enc(text).len() <= 8 + 4 * text.len(),
{
    lemma_utf8_size(text);
    lemma_bytes_enc_len(encode_utf8(text));
}

/// A list of principals is written in at most 37 bytes for each.
pub proof fn lemma_principals_size(s: Seq<Seq<u8>>)
    requires
        forall|i: int| 0 <= i < s.len() ==> (#[trigger] s[i]).len() <= MAX_PRINCIPAL_LENGTH,
    ensures
        <Vec<Principal>>::enc(s).len() <= 8 + 37 * s.len(),
{
    assert forall|i: int| 0 <= i < s.len() implies Principal::enc(#[trigger] s[i]).len()
        <= 37 by {
        lemma_bytes_enc_len(s[i]);
    }
    lemma_list_size::<Principal>(s, 37);
}

/// A list of numbers is written in sixteen bytes for each.
pub proof fn lemma_numbers_size(s: Seq<u128>)
    ensures
        <Vec<u128>>::enc(s).len() <= 8 + 16 * s.len(),
{
    lemma_auto_spec_u128_to_from_le_bytes();
    lemma_list_size::<u128>(s, 16);
}

/// That a text has at most a thousand characters.
pub open spec fn short(text: Seq<char>) -> bool {
    text.len() <= 1000
}

/// That a list has at most a million members.
pub open spec fn modest<T>(list: Seq<T>) -> bool {
    list.len() <= 1_000_000
}

/// That all principals of a list are principals.
pub open spec fn all_principals(list: Seq<Seq<u8>>) -> bool {
    forall|i: int| 0 <= i < list.len() ==> (#[trigger] list[i]).len() <= MAX_PRINCIPAL_LENGTH
}

/// A user of ordinary size: at most a million vehicles and agreements, and
/// a short address.
pub open spec fn ordinary_user(m: UserView) -> bool {
    &&& modest(m.vehicles)
    &&& all_principals(m.vehicles)
    &&& modest(m.agreements)
    &&& m.email is Some ==> short(m.email->0)
}

/// A user of ordinary size can be stored.
pub proof fn law_ordinary_user_is_storable(m: UserView)
    requires
        ordinary_user(m),
    ensures
        storable::<User>(m),
{
    lemma_principals_size(m.vehicles);
    lemma_numbers_size(m.agreements);
    if m.email is Some {
        lemma_text_size(m.email->0);
    }
}

/// An agreement of ordinary size: a short name and price, and at most a
/// million vehicles.
pub open spec fn ordinary_agreement(m: AgreementView) -> bool {
    &&& short(m.name)
    &&& short(m.conditions.gas_price)
    &&& m.vh_provider.len() <= MAX_PRINCIPAL_LENGTH
    &&& m.vh_customer.len() <= MAX_PRINCIPAL_LENGTH
    &&& modest(m.vehicles)
    &&& all_principals(m.vehicles)
}

/// An agreement of ordinary size can be stored.
pub proof fn law_ordinary_agreement_is_storable(m: AgreementView)
    requires
        ordinary_agreement(m),
    ensures
        storable::<Agreement>(m),
{
    lemma_auto_spec_u128_to_from_le_bytes();
    lemma_text_size(m.name);
    lemma_text_size(m.conditions.gas_price);
    lemma_bytes_enc_len(m.vh_provider);
    lemma_bytes_enc_len(m.vh_customer);
    lemma_principals_size(m.vehicles);
}

/// A month of at most a hundred days.
pub open spec fn ordinary_month(m: MonthView) -> bool {
    m.daily.len() <= 100
}

/// A year of at most a hundred months of ordinary size.
pub open spec fn ordinary_year(y: YearView) -> bool {
    &&& y.monthly.len() <= 100
    &&& forall|j: int| 0 <= j < y.monthly.len() ==> ordinary_month(#[trigger] y.monthly[j])
}

/// A vehicle of ordinary size: a key of at most a million bytes, firmware
/// of at most 2^30 bytes, at most a million samples and invoices, and at
/// most a thousand years of totals.
pub open spec fn ordinary_vehicle(m: VehicleView) -> bool {
    &&& m.provider is Some ==> m.provider->0.len() <= MAX_PRINCIPAL_LENGTH
    &&& m.customer.len() <= MAX_PRINCIPAL_LENGTH
    &&& modest(m.public_key)
    &&& short(m.arch)
    &&& m.firmware.len() <= 0x4000_0000
    &&& modest(m.telemetry)
    &&& m.accumulated_telemetry.len() <= 1000
    &&& forall|i: int|
        0 <= i < m.accumulated_telemetry.len() ==> ordinary_year(
            #[trigger] m.accumulated_telemetry[i],
        )
    &&& modest(m.invoices)
}

/// A month of ordinary size is written in at most 1725 bytes.
pub proof fn lemma_month_size(m: MonthView)
    requires
        ordinary_month(m),
    ensures
        AccumulatedTelemetryMonthy::enc(m).len() <= 1725,
{
    lemma_auto_spec_u128_to_from_le_bytes();
    assert forall|i: int| 0 <= i < m.daily.len() implies DayTotal::enc(#[trigger] m.daily[i]).len()
        <= 17 by {}
    lemma_list_size::<DayTotal>(m.daily, 17);
}

/// A year of ordinary size is written in at most 172529 bytes.
pub proof fn lemma_year_size(y: YearView)
    requires
        ordinary_year(y),
    ensures
        AccumulatedTelemetryYearly::enc(y).len() <= 172529,
{
    lemma_auto_spec_u128_to_from_le_bytes();
    lemma_auto_spec_u32_to_from_le_bytes();
    assert forall|j: int| 0 <= j < y.monthly.len() implies AccumulatedTelemetryMonthy::enc(
        #[trigger] y.monthly[j],
    ).len() <= 1725 by {
        lemma_month_size(y.monthly[j]);
    }
    lemma_list_size::<AccumulatedTelemetryMonthy>(y.monthly, 1725);
}

/// A vehicle of ordinary size can be stored.
pub proof fn law_ordinary_vehicle_is_storable(m: VehicleView)
    requires
        ordinary_vehicle(m),
    ensures
        storable::<Vehicle>(m),
{
    lemma_auto_spec_u128_to_from_le_bytes();
    lemma_auto_spec_u32_to_from_le_bytes();
    if m.provider is Some {
        lemma_bytes_enc_len(m.provider->0);
    }
    lemma_bytes_enc_len(m.customer);
    lemma_bytes_enc_len(m.public_key);
    lemma_text_size(m.arch);
    lemma_bytes_enc_len(m.firmware);
    assert forall|i: int| 0 <= i < m.telemetry.len() implies Sample::enc(
        #[trigger] m.telemetry[i],
    ).len() <= 23 by {}
    lemma_list_size::<Sample>(m.telemetry, 23);
    assert forall|i: int|
        0 <= i < m.accumulated_telemetry.len() implies AccumulatedTelemetryYearly::enc(
        #[trigger] m.accumulated_telemetry[i],
    ).len() <= 172529 by {
        lemma_year_size(m.accumulated_telemetry[i]);
    }
    lemma_list_size::<AccumulatedTelemetryYearly>(m.accumulated_telemetry, 172529);
    lemma_numbers_size(m.invoices);
}

} // verus!
