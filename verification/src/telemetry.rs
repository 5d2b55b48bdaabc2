//! Telemetry as a vehicle's record keeps it: the samples that came in and
//! were not yet folded, and the totals by year, month and day that the
//! daily fold builds from them.

use vstd::prelude::*;
use crate::codec::Persist;

verus! {

/// What a sample measures.
#[derive(Clone, Copy, Debug, PartialEq, Eq, Structural)]
pub enum TelemetryType {
    Gas,
}

/// One sample as it waits for the fold: what was measured, the day it came
/// in, and the value.
#[derive(Clone, Copy, Debug, PartialEq, Eq, Structural)]
pub struct Sample {
    pub t_type: TelemetryType,
    pub year: i32,
    pub month: u8,
    pub day: u8,
    pub value: u128,
}

/// The total of one day.
#[derive(Clone, Copy, Debug, PartialEq, Eq, Structural)]
pub struct DayTotal {
    pub day: u8,
    pub value: u128,
}

/// The total of one month, with the totals of its days.
#[derive(Debug)]
pub struct AccumulatedTelemetryMonthy {
    pub month: u8,
    pub value: u128,
    pub daily: Vec<DayTotal>,
}

/// What a month's total stands for.
pub struct MonthView {
    pub month: u8,
    pub value: u128,
    pub daily: Seq<DayTotal>,
}

/// The total of one year of one kind of telemetry, with the totals of its
/// months.
#[derive(Debug)]
pub struct AccumulatedTelemetryYearly {
    pub t_type: TelemetryType,
    pub year: i32,
    pub value: u128,
    pub monthly: Vec<AccumulatedTelemetryMonthy>,
}

/// What a year's total stands for.
pub struct YearView {
    pub t_type: TelemetryType,
    pub year: i32,
    pub value: u128,
    pub monthly: Seq<MonthView>,
}

/// The accumulated telemetry of a vehicle: one entry for each kind and year.
pub type AccumulatedTelemetry = Vec<AccumulatedTelemetryYearly>;

impl Persist for TelemetryType {
    type Model = TelemetryType;

    open spec fn model(&self) -> TelemetryType {
        *self
    }

    open spec fn valid(m: TelemetryType) -> bool {
        true
    }

    open spec fn enc(m: TelemetryType) -> Seq<u8> {
        match m {
            TelemetryType::Gas => seq![0u8],
        }
    }

    open spec fn dec(b: Seq<u8>) -> Option<(TelemetryType, Seq<u8>)> {
        if b.len() >= 1 && b[0] == 0 {
            Some((TelemetryType::Gas, b.skip(1)))
        } else {
            None
        }
    }

    proof fn lemma_round_trip(m: TelemetryType, rest: Seq<u8>) {
        assert((Self::enc(m) + rest).skip(1) =~= rest);
    }

    fn write(&self, out: &mut Vec<u8>) {
        let tag: u8 = match self {
            TelemetryType::Gas => 0,
        };
        out.push(tag);
        assert(out@ =~= old(out)@ + Self::enc(*self));
    }

    fn read(data: &[u8], pos: usize) -> (r: Option<(TelemetryType, usize)>) {
        if pos >= data.len() {
            return None;
        }
        assert(data@.skip(pos as int).skip(1) =~= data@.skip(pos + 1));
        let tag = data[pos];
        if tag == 0 {
            Some((TelemetryType::Gas, pos + 1))
        } else {
            None
        }
    }
}

impl Persist for Sample {
    type Model = Sample;

    open spec fn model(&self) -> Sample {
        *self
    }

    open spec fn valid(m: Sample) -> bool {
        &&& <TelemetryType>::valid(m.t_type)
        &&& <i32>::valid(m.year)
        &&& <u8>::valid(m.month)
        &&& <u8>::valid(m.day)
        &&& <u128>::valid(m.value)
    }

    open spec fn enc(m: Sample) -> Seq<u8> {
        <TelemetryType>::enc(m.t_type)
            + <i32>::enc(m.year)
            + <u8>::enc(m.month)
            + <u8>::enc(m.day)
            + <u128>::enc(m.value)
    }

    open spec fn dec(b0: Seq<u8>) -> Option<(Sample, Seq<u8>)> {
        match <TelemetryType>::dec(b0) {
            Some((t_type, b1)) =>
            match <i32>::dec(b1) {
                Some((year, b2)) =>
                match <u8>::dec(b2) {
                    Some((month, b3)) =>
                    match <u8>::dec(b3) {
                        Some((day, b4)) =>
                        match <u128>::dec(b4) {
                            Some((value, b5)) =>
                            Some(
                                (
                                    Sample {
                                        t_type,
                                        year,
                                        month,
                                        day,
                                        value,
                                    },
                                    b5,
                                ),
                            ),
                            None => None,
                        },
                        None => None,
                    },
                    None => None,
                },
                None => None,
            },
            None => None,
        }
    }

    proof fn lemma_round_trip(m: Sample, rest: Seq<u8>) {
        let t4 = <u128>::enc(m.value) + rest;
        let t3 = <u8>::enc(m.day) + t4;
        let t2 = <u8>::enc(m.month) + t3;
        let t1 = <i32>::enc(m.year) + t2;
        let t0 = <TelemetryType>::enc(m.t_type) + t1;
        let pre0 = <TelemetryType>::enc(m.t_type);
        let pre1 = pre0 + <i32>::enc(m.year);
        let pre2 = pre1 + <u8>::enc(m.month);
        let pre3 = pre2 + <u8>::enc(m.day);
        let pre4 = pre3 + <u128>::enc(m.value);
        assert(pre4 + rest =~= pre3 + t4);
        assert(pre3 + t4 =~= pre2 + t3);
        assert(pre2 + t3 =~= pre1 + t2);
        assert(pre1 + t2 =~= pre0 + t1);
        assert(Self::enc(m) + rest == t0);
        <TelemetryType>::lemma_round_trip(m.t_type, t1);
        <i32>::lemma_round_trip(m.year, t2);
        <u8>::lemma_round_trip(m.month, t3);
        <u8>::lemma_round_trip(m.day, t4);
        <u128>::lemma_round_trip(m.value, rest);
    }

    fn write(&self, out: &mut Vec<u8>) {
        self.t_type.write(out);
        self.year.write(out);
        self.month.write(out);
        self.day.write(out);
        self.value.write(out);
        assert(out@ =~= old(out)@ + Self::enc(self.model()));
    }

    fn read(data: &[u8], pos: usize) -> (r: Option<(Sample, usize)>) {
        let (t_type, at1) = match <TelemetryType>::read(data, pos) {
            Some(pair) => pair,
            None => { return None; },
        };
        let (year, at2) = match <i32>::read(data, at1) {
            Some(pair) => pair,
            None => { return None; },
        };
        let (month, at3) = match <u8>::read(data, at2) {
            Some(pair) => pair,
            None => { return None; },
        };
        let (day, at4) = match <u8>::read(data, at3) {
            Some(pair) => pair,
            None => { return None; },
        };
        let (value, at5) = match <u128>::read(data, at4) {
            Some(pair) => pair,
            None => { return None; },
        };
        Some(
            (
                Sample {
                    t_type,
                    year,
                    month,
                    day,
                    value,
                },
                at5,
            ),
        )
    }
}

impl Persist for DayTotal {
    type Model = DayTotal;

    open spec fn model(&self) -> DayTotal {
        *self
    }

    open spec fn valid(m: DayTotal) -> bool {
        &&& <u8>::valid(m.day)
        &&& <u128>::valid(m.value)
    }

    open spec fn enc(m: DayTotal) -> Seq<u8> {
        <u8>::enc(m.day)
            + <u128>::enc(m.value)
    }

    open spec fn dec(b0: Seq<u8>) -> Option<(DayTotal, Seq<u8>)> {
        match <u8>::dec(b0) {
            Some((day, b1)) =>
            match <u128>::dec(b1) {
                Some((value, b2)) =>
                Some(
                    (
                        DayTotal {
                            day,
                            value,
                        },
                        b2,
                    ),
                ),
                None => None,
            },
            None => None,
        }
    }

    proof fn lemma_round_trip(m: DayTotal, rest: Seq<u8>) {
        let t1 = <u128>::enc(m.value) + rest;
        let t0 = <u8>::enc(m.day) + t1;
        let pre0 = <u8>::enc(m.day);
        let pre1 = pre0 + <u128>::enc(m.value);
        assert(pre1 + rest =~= pre0 + t1);
        assert(Self::enc(m) + rest == t0);
        <u8>::lemma_round_trip(m.day, t1);
        <u128>::lemma_round_trip(m.value, rest);
    }

    fn write(&self, out: &mut Vec<u8>) {
        self.day.write(out);
        self.value.write(out);
        assert(out@ =~= old(out)@ + Self::enc(self.model()));
    }

    fn read(data: &[u8], pos: usize) -> (r: Option<(DayTotal, usize)>) {
        let (day, at1) = match <u8>::read(data, pos) {
            Some(pair) => pair,
            None => { return None; },
        };
        let (value, at2) = match <u128>::read(data, at1) {
            Some(pair) => pair,
            None => { return None; },
        };
        Some(
            (
                DayTotal {
                    day,
                    value,
                },
                at2,
            ),
        )
    }
}

impl Persist for AccumulatedTelemetryMonthy {
    type Model = MonthView;

    open spec fn model(&self) -> MonthView {
        MonthView {
            month: self.month.model(),
            value: self.value.model(),
            daily: self.daily.model(),
        }
    }

    open spec fn valid(m: MonthView) -> bool {
        &&& <u8>::valid(m.month)
        &&& <u128>::valid(m.value)
        &&& <Vec<DayTotal>>::valid(m.daily)
    }

    open spec fn enc(m: MonthView) -> Seq<u8> {
        <u8>::enc(m.month)
            + <u128>::enc(m.value)
            + <Vec<DayTotal>>::enc(m.daily)
    }

    open spec fn dec(b0: Seq<u8>) -> Option<(MonthView, Seq<u8>)> {
        match <u8>::dec(b0) {
            Some((month, b1)) =>
            match <u128>::dec(b1) {
                Some((value, b2)) =>
                match <Vec<DayTotal>>::dec(b2) {
                    Some((daily, b3)) =>
                    Some(
                        (
                            MonthView {
                                month,
                                value,
                                daily,
                            },
                            b3,
                        ),
                    ),
                    None => None,
                },
                None => None,
            },
            None => None,
        }
    }

    proof fn lemma_round_trip(m: MonthView, rest: Seq<u8>) {
        let t2 = <Vec<DayTotal>>::enc(m.daily) + rest;
        let t1 = <u128>::enc(m.value) + t2;
        let t0 = <u8>::enc(m.month) + t1;
        let pre0 = <u8>::enc(m.month);
        let pre1 = pre0 + <u128>::enc(m.value);
        let pre2 = pre1 + <Vec<DayTotal>>::enc(m.daily);
        assert(pre2 + rest =~= pre1 + t2);
        assert(pre1 + t2 =~= pre0 + t1);
        assert(Self::enc(m) + rest == t0);
        <u8>::lemma_round_trip(m.month, t1);
        <u128>::lemma_round_trip(m.value, t2);
        <Vec<DayTotal>>::lemma_round_trip(m.daily, rest);
    }

    fn write(&self, out: &mut Vec<u8>) {
        self.month.write(out);
        self.value.write(out);
        self.daily.write(out);
        assert(out@ =~= old(out)@ + Self::enc(self.model()));
    }

    fn read(data: &[u8], pos: usize) -> (r: Option<(AccumulatedTelemetryMonthy, usize)>) {
        let (month, at1) = match <u8>::read(data, pos) {
            Some(pair) => pair,
            None => { return None; },
        };
        let (value, at2) = match <u128>::read(data, at1) {
            Some(pair) => pair,
            None => { return None; },
        };
        let (daily, at3) = match <Vec<DayTotal>>::read(data, at2) {
            Some(pair) => pair,
            None => { return None; },
        };
        Some(
            (
                AccumulatedTelemetryMonthy {
                    month,
                    value,
                    daily,
                },
                at3,
            ),
        )
    }
}

impl Persist for AccumulatedTelemetryYearly {
    type Model = YearView;

    open spec fn model(&self) -> YearView {
        YearView {
            t_type: self.t_type.model(),
            year: self.year.model(),
            value: self.value.model(),
            monthly: self.monthly.model(),
        }
    }

    open spec fn valid(m: YearView) -> bool {
        &&& <TelemetryType>::valid(m.t_type)
        &&& <i32>::valid(m.year)
        &&& <u128>::valid(m.value)
        &&& <Vec<AccumulatedTelemetryMonthy>>::valid(m.monthly)
    }

    open spec fn enc(m: YearView) -> Seq<u8> {
        <TelemetryType>::enc(m.t_type)
            + <i32>::enc(m.year)
            + <u128>::enc(m.value)
            + <Vec<AccumulatedTelemetryMonthy>>::enc(m.monthly)
    }

    open spec fn dec(b0: Seq<u8>) -> Option<(YearView, Seq<u8>)> {
        match <TelemetryType>::dec(b0) {
            Some((t_type, b1)) =>
            match <i32>::dec(b1) {
                Some((year, b2)) =>
                match <u128>::dec(b2) {
                    Some((value, b3)) =>
                    match <Vec<AccumulatedTelemetryMonthy>>::dec(b3) {
                        Some((monthly, b4)) =>
                        Some(
                            (
                                YearView {
                                    t_type,
                                    year,
                                    value,
                                    monthly,
                                },
                                b4,
                            ),
                        ),
                        None => None,
                    },
                    None => None,
                },
                None => None,
            },
            None => None,
        }
    }

    proof fn lemma_round_trip(m: YearView, rest: Seq<u8>) {
        let t3 = <Vec<AccumulatedTelemetryMonthy>>::enc(m.monthly) + rest;
        let t2 = <u128>::enc(m.value) + t3;
        let t1 = <i32>::enc(m.year) + t2;
        let t0 = <TelemetryType>::enc(m.t_type) + t1;
        let pre0 = <TelemetryType>::enc(m.t_type);
        let pre1 = pre0 + <i32>::enc(m.year);
        let pre2 = pre1 + <u128>::enc(m.value);
        let pre3 = pre2 + <Vec<AccumulatedTelemetryMonthy>>::enc(m.monthly);
        assert(pre3 + rest =~= pre2 + t3);
        assert(pre2 + t3 =~= pre1 + t2);
        assert(pre1 + t2 =~= pre0 + t1);
        assert(Self::enc(m) + rest == t0);
        <TelemetryType>::lemma_round_trip(m.t_type, t1);
        <i32>::lemma_round_trip(m.year, t2);
        <u128>::lemma_round_trip(m.value, t3);
        <Vec<AccumulatedTelemetryMonthy>>::lemma_round_trip(m.monthly, rest);
    }

    fn write(&self, out: &mut Vec<u8>) {
        self.t_type.write(out);
        self.year.write(out);
        self.value.write(out);
        self.monthly.write(out);
        assert(out@ =~= old(out)@ + Self::enc(self.model()));
    }

    fn read(data: &[u8], pos: usize) -> (r: Option<(AccumulatedTelemetryYearly, usize)>) {
        let (t_type, at1) = match <TelemetryType>::read(data, pos) {
            Some(pair) => pair,
            None => { return None; },
        };
        let (year, at2) = match <i32>::read(data, at1) {
            Some(pair) => pair,
            None => { return None; },
        };
        let (value, at3) = match <u128>::read(data, at2) {
            Some(pair) => pair,
            None => { return None; },
        };
        let (monthly, at4) = match <Vec<AccumulatedTelemetryMonthy>>::read(data, at3) {
            Some(pair) => pair,
            None => { return None; },
        };
        Some(
            (
                AccumulatedTelemetryYearly {
                    t_type,
                    year,
                    value,
                    monthly,
                },
                at4,
            ),
        )
    }
}

} // verus!
