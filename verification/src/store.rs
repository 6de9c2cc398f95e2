//! The entity store: one durable ordered map per entity type plus the
//! shared identifier counter, behind the uniform create / read / filter /
//! update surface that every entity handler calls. Each operation's
//! contract states exactly which records it returns or stores, over the
//! decoded view of the durable bytes, and every mutating operation
//! preserves the store's consistency: stored bytes decode exactly, each
//! record's identifier equals its key, and every key is below the counter.

#![verifier::loop_isolation(false)]

use vstd::prelude::*;
use vstd::pervasive::arbitrary;
use vstd::pervasive::unreached;
use vstd::string::StringExecFns;

use crate::record_codec::dec_department_exact;
use crate::record_codec::dec_doctor_exact;
use crate::record_codec::dec_patient_exact;
use crate::record_codec::dec_consultation_exact;
use crate::record_codec::dec_chat_exact;
use crate::record_codec::dec_appointment_exact;
use crate::record_codec::dec_prescription_exact;
use crate::record_codec::dec_payment_exact;
use crate::record_codec::dec_medical_record_exact;
use crate::record_codec::enc_department;
use crate::record_codec::enc_doctor;
use crate::record_codec::enc_patient;
use crate::record_codec::enc_consultation;
use crate::record_codec::enc_chat;
use crate::record_codec::enc_appointment;
use crate::record_codec::enc_prescription;
use crate::record_codec::enc_payment;
use crate::record_codec::enc_medical_record;
use crate::record_codec::department_encodable;
use crate::record_codec::doctor_encodable;
use crate::record_codec::patient_encodable;
use crate::record_codec::consultation_encodable;
use crate::record_codec::chat_encodable;
use crate::record_codec::appointment_encodable;
use crate::record_codec::prescription_encodable;
use crate::record_codec::payment_encodable;
use crate::record_codec::medical_record_encodable;
use crate::record_codec::decode_department;
use crate::record_codec::decode_doctor;
use crate::record_codec::decode_patient;
use crate::record_codec::decode_consultation;
use crate::record_codec::decode_chat;
use crate::record_codec::decode_appointment;
use crate::record_codec::decode_prescription;
use crate::record_codec::decode_payment;
use crate::record_codec::decode_medical_record;
use crate::record_codec::encode_department;
use crate::record_codec::encode_doctor;
use crate::record_codec::encode_patient;
use crate::record_codec::encode_consultation;
use crate::record_codec::encode_chat;
use crate::record_codec::encode_appointment;
use crate::record_codec::encode_prescription;
use crate::record_codec::encode_payment;
use crate::record_codec::encode_medical_record;
use crate::record_codec::lemma_department_exact_round_trip;
use crate::record_codec::lemma_doctor_exact_round_trip;
use crate::record_codec::lemma_patient_exact_round_trip;
use crate::record_codec::lemma_consultation_exact_round_trip;
use crate::record_codec::lemma_chat_exact_round_trip;
use crate::record_codec::lemma_appointment_exact_round_trip;
use crate::record_codec::lemma_prescription_exact_round_trip;
use crate::record_codec::lemma_payment_exact_round_trip;
use crate::record_codec::lemma_medical_record_exact_round_trip;
use crate::records::Appointment;
use crate::records::AppointmentView;
use crate::records::Chat;
use crate::records::ChatView;
use crate::records::Consultation;
use crate::records::ConsultationView;
use crate::records::CreateAppointmentPayload;
use crate::records::CreateChatPayload;
use crate::records::CreateConsultationPayload;
use crate::records::CreateDepartmentPayload;
use crate::records::CreateDoctorPayload;
use crate::records::CreateMedicalRecordPayload;
use crate::records::CreatePatientPayload;
use crate::records::CreatePaymentPayload;
use crate::records::CreatePrescriptionPayload;
use crate::records::Department;
use crate::records::DepartmentView;
use crate::records::Doctor;
use crate::records::DoctorView;
use crate::records::MedicalRecord;
use crate::records::MedicalRecordView;
use crate::records::Message;
use crate::records::Patient;
use crate::records::PatientView;
use crate::records::Payment;
use crate::records::PaymentView;
use crate::records::Prescription;
use crate::records::PrescriptionView;
use crate::storage::id_cell_value;
use crate::storage::record_map_contents;
use crate::storage::IdCell;
use crate::storage::RecordMap;
use crate::storage::RegionAllocator;
use crate::storage::StorageBackend;
use crate::text::is_substring;
use crate::text::str_contains;

verus! {

// ---------------------------------------------------------------------------
// The texts of the typed results.
// ---------------------------------------------------------------------------

pub open spec fn missing_fields_text() -> Seq<char> {
    "Missing required fields"@
}

pub open spec fn scheduled_text() -> Seq<char> {
    "scheduled"@
}

pub open spec fn pending_text() -> Seq<char> {
    "pending"@
}

pub open spec fn department_not_found_text() -> Seq<char> {
    "Department not found"@
}

pub open spec fn no_departments_text() -> Seq<char> {
    "No departments found"@
}

pub open spec fn doctor_not_found_text() -> Seq<char> {
    "Doctor not found"@
}

pub open spec fn no_doctors_text() -> Seq<char> {
    "No doctors found"@
}

pub open spec fn patient_not_found_text() -> Seq<char> {
    "Patient not found"@
}

pub open spec fn no_patients_text() -> Seq<char> {
    "No patients found"@
}

pub open spec fn consultation_not_found_text() -> Seq<char> {
    "Consultation not found"@
}

pub open spec fn no_consultations_text() -> Seq<char> {
    "No consultations found"@
}

pub open spec fn chat_not_found_text() -> Seq<char> {
    "Chat not found"@
}

pub open spec fn no_chats_text() -> Seq<char> {
    "No chats found"@
}

pub open spec fn appointment_not_found_text() -> Seq<char> {
    "Appointment not found"@
}

pub open spec fn no_appointments_text() -> Seq<char> {
    "No appointments found"@
}

pub open spec fn prescription_not_found_text() -> Seq<char> {
    "Prescription not found"@
}

pub open spec fn no_prescriptions_text() -> Seq<char> {
    "No prescriptions found"@
}

pub open spec fn payment_not_found_text() -> Seq<char> {
    "Payment not found"@
}

pub open spec fn no_payments_text() -> Seq<char> {
    "No payments found"@
}

pub open spec fn medical_record_not_found_text() -> Seq<char> {
    "Medical record not found"@
}

pub open spec fn no_medical_records_text() -> Seq<char> {
    "No medical records found"@
}

fn not_found_msg(text: &str) -> (m: Message)
    ensures
        m matches Message::NotFound(s) && s@ == text@,
{
    Message::NotFound(String::from_str(text))
}

fn invalid_payload_msg(text: &str) -> (m: Message)
    ensures
        m matches Message::InvalidPayload(s) && s@ == text@,
{
    Message::InvalidPayload(String::from_str(text))
}

// ---------------------------------------------------------------------------
// The store and its consistency.
// ---------------------------------------------------------------------------

/// The whole durable state of the service: the shared identifier counter
/// and one record map per entity type, each in its own region.
pub struct Hospital {
    pub id_counter: IdCell,
    pub departments: RecordMap,
    pub doctors: RecordMap,
    pub patients: RecordMap,
    pub consultations: RecordMap,
    pub chats: RecordMap,
    pub appointments: RecordMap,
    pub prescriptions: RecordMap,
    pub payments: RecordMap,
    pub medical_records: RecordMap,
}

/// A stored entry decodes exactly, carries its own key as its
/// identifier, and that identifier was issued below the counter.
pub open spec fn department_entry_ok(m: Map<u64, Seq<u8>>, k: u64, ctr: u64) -> bool {
    dec_department_exact(m[k]) matches Some(v) && v.id == k && k < ctr
}

pub open spec fn departments_ok(m: Map<u64, Seq<u8>>, ctr: u64) -> bool {
    &&& m.dom().finite()
    &&& forall|k: u64| #[trigger] m.dom().contains(k) ==> department_entry_ok(m, k, ctr)
}

pub proof fn lemma_departments_ok_mono(m: Map<u64, Seq<u8>>, c1: u64, c2: u64)
    requires
        departments_ok(m, c1),
        c1 <= c2,
    ensures
        departments_ok(m, c2),
{
    assert forall|k: u64| #[trigger] m.dom().contains(k) implies department_entry_ok(m, k, c2) by {
        assert(department_entry_ok(m, k, c1));
    }
}

pub proof fn lemma_departments_ok_insert(m: Map<u64, Seq<u8>>, c1: u64, c2: u64, id: u64, v: DepartmentView)
    requires
        departments_ok(m, c1),
        c1 <= c2,
        id < c2,
        v.id == id,
        department_encodable(v),
    ensures
        departments_ok(m.insert(id, enc_department(v)), c2),
{
    lemma_department_exact_round_trip(v);
    let m2 = m.insert(id, enc_department(v));
    assert(m2.dom() =~= m.dom().insert(id));
    assert forall|k: u64| #[trigger] m2.dom().contains(k) implies department_entry_ok(m2, k, c2) by {
        if k == id {
            assert(m2[k] == enc_department(v));
        } else {
            assert(m.dom().contains(k));
            assert(department_entry_ok(m, k, c1));
            assert(m2[k] == m[k]);
        }
    }
}

/// A stored entry decodes exactly, carries its own key as its
/// identifier, and that identifier was issued below the counter.
pub open spec fn doctor_entry_ok(m: Map<u64, Seq<u8>>, k: u64, ctr: u64) -> bool {
    dec_doctor_exact(m[k]) matches Some(v) && v.id == k && k < ctr
}

pub open spec fn doctors_ok(m: Map<u64, Seq<u8>>, ctr: u64) -> bool {
    &&& m.dom().finite()
    &&& forall|k: u64| #[trigger] m.dom().contains(k) ==> doctor_entry_ok(m, k, ctr)
}

pub proof fn lemma_doctors_ok_mono(m: Map<u64, Seq<u8>>, c1: u64, c2: u64)
    requires
        doctors_ok(m, c1),
        c1 <= c2,
    ensures
        doctors_ok(m, c2),
{
    assert forall|k: u64| #[trigger] m.dom().contains(k) implies doctor_entry_ok(m, k, c2) by {
        assert(doctor_entry_ok(m, k, c1));
    }
}

pub proof fn lemma_doctors_ok_insert(m: Map<u64, Seq<u8>>, c1: u64, c2: u64, id: u64, v: DoctorView)
    requires
        doctors_ok(m, c1),
        c1 <= c2,
        id < c2,
        v.id == id,
        doctor_encodable(v),
    ensures
        doctors_ok(m.insert(id, enc_doctor(v)), c2),
{
    lemma_doctor_exact_round_trip(v);
    let m2 = m.insert(id, enc_doctor(v));
    assert(m2.dom() =~= m.dom().insert(id));
    assert forall|k: u64| #[trigger] m2.dom().contains(k) implies doctor_entry_ok(m2, k, c2) by {
        if k == id {
            assert(m2[k] == enc_doctor(v));
        } else {
            assert(m.dom().contains(k));
            assert(doctor_entry_ok(m, k, c1));
            assert(m2[k] == m[k]);
        }
    }
}

/// A stored entry decodes exactly, carries its own key as its
/// identifier, and that identifier was issued below the counter.
pub open spec fn patient_entry_ok(m: Map<u64, Seq<u8>>, k: u64, ctr: u64) -> bool {
    dec_patient_exact(m[k]) matches Some(v) && v.id == k && k < ctr
}

pub open spec fn patients_ok(m: Map<u64, Seq<u8>>, ctr: u64) -> bool {
    &&& m.dom().finite()
    &&& forall|k: u64| #[trigger] m.dom().contains(k) ==> patient_entry_ok(m, k, ctr)
}

pub proof fn lemma_patients_ok_mono(m: Map<u64, Seq<u8>>, c1: u64, c2: u64)
    requires
        patients_ok(m, c1),
        c1 <= c2,
    ensures
        patients_ok(m, c2),
{
    assert forall|k: u64| #[trigger] m.dom().contains(k) implies patient_entry_ok(m, k, c2) by {
        assert(patient_entry_ok(m, k, c1));
    }
}

pub proof fn lemma_patients_ok_insert(m: Map<u64, Seq<u8>>, c1: u64, c2: u64, id: u64, v: PatientView)
    requires
        patients_ok(m, c1),
        c1 <= c2,
        id < c2,
        v.id == id,
        patient_encodable(v),
    ensures
        patients_ok(m.insert(id, enc_patient(v)), c2),
{
    lemma_patient_exact_round_trip(v);
    let m2 = m.insert(id, enc_patient(v));
    assert(m2.dom() =~= m.dom().insert(id));
    assert forall|k: u64| #[trigger] m2.dom().contains(k) implies patient_entry_ok(m2, k, c2) by {
        if k == id {
            assert(m2[k] == enc_patient(v));
        } else {
            assert(m.dom().contains(k));
            assert(patient_entry_ok(m, k, c1));
            assert(m2[k] == m[k]);
        }
    }
}

/// A stored entry decodes exactly, carries its own key as its
/// identifier, and that identifier was issued below the counter.
pub open spec fn consultation_entry_ok(m: Map<u64, Seq<u8>>, k: u64, ctr: u64) -> bool {
    dec_consultation_exact(m[k]) matches Some(v) && v.id == k && k < ctr
}

pub open spec fn consultations_ok(m: Map<u64, Seq<u8>>, ctr: u64) -> bool {
    &&& m.dom().finite()
    &&& forall|k: u64| #[trigger] m.dom().contains(k) ==> consultation_entry_ok(m, k, ctr)
}

pub proof fn lemma_consultations_ok_mono(m: Map<u64, Seq<u8>>, c1: u64, c2: u64)
    requires
        consultations_ok(m, c1),
        c1 <= c2,
    ensures
        consultations_ok(m, c2),
{
    assert forall|k: u64| #[trigger] m.dom().contains(k) implies consultation_entry_ok(m, k, c2) by {
        assert(consultation_entry_ok(m, k, c1));
    }
}

pub proof fn lemma_consultations_ok_insert(m: Map<u64, Seq<u8>>, c1: u64, c2: u64, id: u64, v: ConsultationView)
    requires
        consultations_ok(m, c1),
        c1 <= c2,
        id < c2,
        v.id == id,
        consultation_encodable(v),
    ensures
        consultations_ok(m.insert(id, enc_consultation(v)), c2),
{
    lemma_consultation_exact_round_trip(v);
    let m2 = m.insert(id, enc_consultation(v));
    assert(m2.dom() =~= m.dom().insert(id));
    assert forall|k: u64| #[trigger] m2.dom().contains(k) implies consultation_entry_ok(m2, k, c2) by {
        if k == id {
            assert(m2[k] == enc_consultation(v));
        } else {
            assert(m.dom().contains(k));
            assert(consultation_entry_ok(m, k, c1));
            assert(m2[k] == m[k]);
        }
    }
}

/// A stored entry decodes exactly, carries its own key as its
/// identifier, and that identifier was issued below the counter.
pub open spec fn chat_entry_ok(m: Map<u64, Seq<u8>>, k: u64, ctr: u64) -> bool {
    dec_chat_exact(m[k]) matches Some(v) && v.id == k && k < ctr
}

pub open spec fn chats_ok(m: Map<u64, Seq<u8>>, ctr: u64) -> bool {
    &&& m.dom().finite()
    &&& forall|k: u64| #[trigger] m.dom().contains(k) ==> chat_entry_ok(m, k, ctr)
}

pub proof fn lemma_chats_ok_mono(m: Map<u64, Seq<u8>>, c1: u64, c2: u64)
    requires
        chats_ok(m, c1),
        c1 <= c2,
    ensures
        chats_ok(m, c2),
{
    assert forall|k: u64| #[trigger] m.dom().contains(k) implies chat_entry_ok(m, k, c2) by {
        assert(chat_entry_ok(m, k, c1));
    }
}

pub proof fn lemma_chats_ok_insert(m: Map<u64, Seq<u8>>, c1: u64, c2: u64, id: u64, v: ChatView)
    requires
        chats_ok(m, c1),
        c1 <= c2,
        id < c2,
        v.id == id,
        chat_encodable(v),
    ensures
        chats_ok(m.insert(id, enc_chat(v)), c2),
{
    lemma_chat_exact_round_trip(v);
    let m2 = m.insert(id, enc_chat(v));
    assert(m2.dom() =~= m.dom().insert(id));
    assert forall|k: u64| #[trigger] m2.dom().contains(k) implies chat_entry_ok(m2, k, c2) by {
        if k == id {
            assert(m2[k] == enc_chat(v));
        } else {
            assert(m.dom().contains(k));
            assert(chat_entry_ok(m, k, c1));
            assert(m2[k] == m[k]);
        }
    }
}

/// A stored entry decodes exactly, carries its own key as its
/// identifier, and that identifier was issued below the counter.
pub open spec fn appointment_entry_ok(m: Map<u64, Seq<u8>>, k: u64, ctr: u64) -> bool {
    dec_appointment_exact(m[k]) matches Some(v) && v.id == k && k < ctr
}

pub open spec fn appointments_ok(m: Map<u64, Seq<u8>>, ctr: u64) -> bool {
    &&& m.dom().finite()
    &&& forall|k: u64| #[trigger] m.dom().contains(k) ==> appointment_entry_ok(m, k, ctr)
}

pub proof fn lemma_appointments_ok_mono(m: Map<u64, Seq<u8>>, c1: u64, c2: u64)
    requires
        appointments_ok(m, c1),
        c1 <= c2,
    ensures
        appointments_ok(m, c2),
{
    assert forall|k: u64| #[trigger] m.dom().contains(k) implies appointment_entry_ok(m, k, c2) by {
        assert(appointment_entry_ok(m, k, c1));
    }
}

pub proof fn lemma_appointments_ok_insert(m: Map<u64, Seq<u8>>, c1: u64, c2: u64, id: u64, v: AppointmentView)
    requires
        appointments_ok(m, c1),
        c1 <= c2,
        id < c2,
        v.id == id,
        appointment_encodable(v),
    ensures
        appointments_ok(m.insert(id, enc_appointment(v)), c2),
{
    lemma_appointment_exact_round_trip(v);
    let m2 = m.insert(id, enc_appointment(v));
    assert(m2.dom() =~= m.dom().insert(id));
    assert forall|k: u64| #[trigger] m2.dom().contains(k) implies appointment_entry_ok(m2, k, c2) by {
        if k == id {
            assert(m2[k] == enc_appointment(v));
        } else {
            assert(m.dom().contains(k));
            assert(appointment_entry_ok(m, k, c1));
            assert(m2[k] == m[k]);
        }
    }
}

/// A stored entry decodes exactly, carries its own key as its
/// identifier, and that identifier was issued below the counter.
pub open spec fn prescription_entry_ok(m: Map<u64, Seq<u8>>, k: u64, ctr: u64) -> bool {
    dec_prescription_exact(m[k]) matches Some(v) && v.id == k && k < ctr
}

pub open spec fn prescriptions_ok(m: Map<u64, Seq<u8>>, ctr: u64) -> bool {
    &&& m.dom().finite()
    &&& forall|k: u64| #[trigger] m.dom().contains(k) ==> prescription_entry_ok(m, k, ctr)
}

pub proof fn lemma_prescriptions_ok_mono(m: Map<u64, Seq<u8>>, c1: u64, c2: u64)
    requires
        prescriptions_ok(m, c1),
        c1 <= c2,
    ensures
        prescriptions_ok(m, c2),
{
    assert forall|k: u64| #[trigger] m.dom().contains(k) implies prescription_entry_ok(m, k, c2) by {
        assert(prescription_entry_ok(m, k, c1));
    }
}

pub proof fn lemma_prescriptions_ok_insert(m: Map<u64, Seq<u8>>, c1: u64, c2: u64, id: u64, v: PrescriptionView)
    requires
        prescriptions_ok(m, c1),
        c1 <= c2,
        id < c2,
        v.id == id,
        prescription_encodable(v),
    ensures
        prescriptions_ok(m.insert(id, enc_prescription(v)), c2),
{
    lemma_prescription_exact_round_trip(v);
    let m2 = m.insert(id, enc_prescription(v));
    assert(m2.dom() =~= m.dom().insert(id));
    assert forall|k: u64| #[trigger] m2.dom().contains(k) implies prescription_entry_ok(m2, k, c2) by {
        if k == id {
            assert(m2[k] == enc_prescription(v));
        } else {
            assert(m.dom().contains(k));
            assert(prescription_entry_ok(m, k, c1));
            assert(m2[k] == m[k]);
        }
    }
}

/// A stored entry decodes exactly, carries its own key as its
/// identifier, and that identifier was issued below the counter.
pub open spec fn payment_entry_ok(m: Map<u64, Seq<u8>>, k: u64, ctr: u64) -> bool {
    dec_payment_exact(m[k]) matches Some(v) && v.id == k && k < ctr
}

pub open spec fn payments_ok(m: Map<u64, Seq<u8>>, ctr: u64) -> bool {
    &&& m.dom().finite()
    &&& forall|k: u64| #[trigger] m.dom().contains(k) ==> payment_entry_ok(m, k, ctr)
}

pub proof fn lemma_payments_ok_mono(m: Map<u64, Seq<u8>>, c1: u64, c2: u64)
    requires
        payments_ok(m, c1),
        c1 <= c2,
    ensures
        payments_ok(m, c2),
{
    assert forall|k: u64| #[trigger] m.dom().contains(k) implies payment_entry_ok(m, k, c2) by {
        assert(payment_entry_ok(m, k, c1));
    }
}

pub proof fn lemma_payments_ok_insert(m: Map<u64, Seq<u8>>, c1: u64, c2: u64, id: u64, v: PaymentView)
    requires
        payments_ok(m, c1),
        c1 <= c2,
        id < c2,
        v.id == id,
        payment_encodable(v),
    ensures
        payments_ok(m.insert(id, enc_payment(v)), c2),
{
    lemma_payment_exact_round_trip(v);
    let m2 = m.insert(id, enc_payment(v));
    assert(m2.dom() =~= m.dom().insert(id));
    assert forall|k: u64| #[trigger] m2.dom().contains(k) implies payment_entry_ok(m2, k, c2) by {
        if k == id {
            assert(m2[k] == enc_payment(v));
        } else {
            assert(m.dom().contains(k));
            assert(payment_entry_ok(m, k, c1));
            assert(m2[k] == m[k]);
        }
    }
}

/// A stored entry decodes exactly, carries its own key as its
/// identifier, and that identifier was issued below the counter.
pub open spec fn medical_record_entry_ok(m: Map<u64, Seq<u8>>, k: u64, ctr: u64) -> bool {
    dec_medical_record_exact(m[k]) matches Some(v) && v.id == k && k < ctr
}

pub open spec fn medical_records_ok(m: Map<u64, Seq<u8>>, ctr: u64) -> bool {
    &&& m.dom().finite()
    &&& forall|k: u64| #[trigger] m.dom().contains(k) ==> medical_record_entry_ok(m, k, ctr)
}

pub proof fn lemma_medical_records_ok_mono(m: Map<u64, Seq<u8>>, c1: u64, c2: u64)
    requires
        medical_records_ok(m, c1),
        c1 <= c2,
    ensures
        medical_records_ok(m, c2),
{
    assert forall|k: u64| #[trigger] m.dom().contains(k) implies medical_record_entry_ok(m, k, c2) by {
        assert(medical_record_entry_ok(m, k, c1));
    }
}

pub proof fn lemma_medical_records_ok_insert(m: Map<u64, Seq<u8>>, c1: u64, c2: u64, id: u64, v: MedicalRecordView)
    requires
        medical_records_ok(m, c1),
        c1 <= c2,
        id < c2,
        v.id == id,
        medical_record_encodable(v),
    ensures
        medical_records_ok(m.insert(id, enc_medical_record(v)), c2),
{
    lemma_medical_record_exact_round_trip(v);
    let m2 = m.insert(id, enc_medical_record(v));
    assert(m2.dom() =~= m.dom().insert(id));
    assert forall|k: u64| #[trigger] m2.dom().contains(k) implies medical_record_entry_ok(m2, k, c2) by {
        if k == id {
            assert(m2[k] == enc_medical_record(v));
        } else {
            assert(m.dom().contains(k));
            assert(medical_record_entry_ok(m, k, c1));
            assert(m2[k] == m[k]);
        }
    }
}

/// The record maps of both states are the same stores.
pub open spec fn same_maps(a: Hospital, b: Hospital) -> bool {
    &&& b.departments == a.departments
    &&& b.doctors == a.doctors
    &&& b.patients == a.patients
    &&& b.consultations == a.consultations
    &&& b.chats == a.chats
    &&& b.appointments == a.appointments
    &&& b.prescriptions == a.prescriptions
    &&& b.payments == a.payments
    &&& b.medical_records == a.medical_records
}

/// Every record map except the department map is the same store.
pub open spec fn same_maps_except_departments(a: Hospital, b: Hospital) -> bool {
    &&& b.doctors == a.doctors
    &&& b.patients == a.patients
    &&& b.consultations == a.consultations
    &&& b.chats == a.chats
    &&& b.appointments == a.appointments
    &&& b.prescriptions == a.prescriptions
    &&& b.payments == a.payments
    &&& b.medical_records == a.medical_records
}

/// Every record map except the doctor map is the same store.
pub open spec fn same_maps_except_doctors(a: Hospital, b: Hospital) -> bool {
    &&& b.departments == a.departments
    &&& b.patients == a.patients
    &&& b.consultations == a.consultations
    &&& b.chats == a.chats
    &&& b.appointments == a.appointments
    &&& b.prescriptions == a.prescriptions
    &&& b.payments == a.payments
    &&& b.medical_records == a.medical_records
}

/// Every record map except the patient map is the same store.
pub open spec fn same_maps_except_patients(a: Hospital, b: Hospital) -> bool {
    &&& b.departments == a.departments
    &&& b.doctors == a.doctors
    &&& b.consultations == a.consultations
    &&& b.chats == a.chats
    &&& b.appointments == a.appointments
    &&& b.prescriptions == a.prescriptions
    &&& b.payments == a.payments
    &&& b.medical_records == a.medical_records
}

/// Every record map except the consultation map is the same store.
pub open spec fn same_maps_except_consultations(a: Hospital, b: Hospital) -> bool {
    &&& b.departments == a.departments
    &&& b.doctors == a.doctors
    &&& b.patients == a.patients
    &&& b.chats == a.chats
    &&& b.appointments == a.appointments
    &&& b.prescriptions == a.prescriptions
    &&& b.payments == a.payments
    &&& b.medical_records == a.medical_records
}

/// Every record map except the chat map is the same store.
pub open spec fn same_maps_except_chats(a: Hospital, b: Hospital) -> bool {
    &&& b.departments == a.departments
    &&& b.doctors == a.doctors
    &&& b.patients == a.patients
    &&& b.consultations == a.consultations
    &&& b.appointments == a.appointments
    &&& b.prescriptions == a.prescriptions
    &&& b.payments == a.payments
    &&& b.medical_records == a.medical_records
}

/// Every record map except the appointment map is the same store.
pub open spec fn same_maps_except_appointments(a: Hospital, b: Hospital) -> bool {
    &&& b.departments == a.departments
    &&& b.doctors == a.doctors
    &&& b.patients == a.patients
    &&& b.consultations == a.consultations
    &&& b.chats == a.chats
    &&& b.prescriptions == a.prescriptions
    &&& b.payments == a.payments
    &&& b.medical_records == a.medical_records
}

/// Every record map except the prescription map is the same store.
pub open spec fn same_maps_except_prescriptions(a: Hospital, b: Hospital) -> bool {
    &&& b.departments == a.departments
    &&& b.doctors == a.doctors
    &&& b.patients == a.patients
    &&& b.consultations == a.consultations
    &&& b.chats == a.chats
    &&& b.appointments == a.appointments
    &&& b.payments == a.payments
    &&& b.medical_records == a.medical_records
}

/// Every record map except the payment map is the same store.
pub open spec fn same_maps_except_payments(a: Hospital, b: Hospital) -> bool {
    &&& b.departments == a.departments
    &&& b.doctors == a.doctors
    &&& b.patients == a.patients
    &&& b.consultations == a.consultations
    &&& b.chats == a.chats
    &&& b.appointments == a.appointments
    &&& b.prescriptions == a.prescriptions
    &&& b.medical_records == a.medical_records
}

/// Every record map except the medical record map is the same store.
pub open spec fn same_maps_except_medical_records(a: Hospital, b: Hospital) -> bool {
    &&& b.departments == a.departments
    &&& b.doctors == a.doctors
    &&& b.patients == a.patients
    &&& b.consultations == a.consultations
    &&& b.chats == a.chats
    &&& b.appointments == a.appointments
    &&& b.prescriptions == a.prescriptions
    &&& b.payments == a.payments
}

impl Hospital {
    /// The identifier counter's current value.
    pub open spec fn counter_val(self) -> u64 {
        id_cell_value(self.id_counter)
    }

    pub open spec fn departments_map(self) -> Map<u64, Seq<u8>> {
        record_map_contents(self.departments)
    }

    pub open spec fn doctors_map(self) -> Map<u64, Seq<u8>> {
        record_map_contents(self.doctors)
    }

    pub open spec fn patients_map(self) -> Map<u64, Seq<u8>> {
        record_map_contents(self.patients)
    }

    pub open spec fn consultations_map(self) -> Map<u64, Seq<u8>> {
        record_map_contents(self.consultations)
    }

    pub open spec fn chats_map(self) -> Map<u64, Seq<u8>> {
        record_map_contents(self.chats)
    }

    pub open spec fn appointments_map(self) -> Map<u64, Seq<u8>> {
        record_map_contents(self.appointments)
    }

    pub open spec fn prescriptions_map(self) -> Map<u64, Seq<u8>> {
        record_map_contents(self.prescriptions)
    }

    pub open spec fn payments_map(self) -> Map<u64, Seq<u8>> {
        record_map_contents(self.payments)
    }

    pub open spec fn medical_records_map(self) -> Map<u64, Seq<u8>> {
        record_map_contents(self.medical_records)
    }

    /// The decoded record stored at the key.
    pub open spec fn department_at(self, k: u64) -> DepartmentView {
        match dec_department_exact(self.departments_map()[k]) {
            Some(v) => v,
            None => arbitrary(),
        }
    }

    /// The decoded record stored at the key.
    pub open spec fn doctor_at(self, k: u64) -> DoctorView {
        match dec_doctor_exact(self.doctors_map()[k]) {
            Some(v) => v,
            None => arbitrary(),
        }
    }

    /// The decoded record stored at the key.
    pub open spec fn patient_at(self, k: u64) -> PatientView {
        match dec_patient_exact(self.patients_map()[k]) {
            Some(v) => v,
            None => arbitrary(),
        }
    }

    /// The decoded record stored at the key.
    pub open spec fn consultation_at(self, k: u64) -> ConsultationView {
        match dec_consultation_exact(self.consultations_map()[k]) {
            Some(v) => v,
            None => arbitrary(),
        }
    }

    /// The decoded record stored at the key.
    pub open spec fn chat_at(self, k: u64) -> ChatView {
        match dec_chat_exact(self.chats_map()[k]) {
            Some(v) => v,
            None => arbitrary(),
        }
    }

    /// The decoded record stored at the key.
    pub open spec fn appointment_at(self, k: u64) -> AppointmentView {
        match dec_appointment_exact(self.appointments_map()[k]) {
            Some(v) => v,
            None => arbitrary(),
        }
    }

    /// The decoded record stored at the key.
    pub open spec fn prescription_at(self, k: u64) -> PrescriptionView {
        match dec_prescription_exact(self.prescriptions_map()[k]) {
            Some(v) => v,
            None => arbitrary(),
        }
    }

    /// The decoded record stored at the key.
    pub open spec fn payment_at(self, k: u64) -> PaymentView {
        match dec_payment_exact(self.payments_map()[k]) {
            Some(v) => v,
            None => arbitrary(),
        }
    }

    /// The decoded record stored at the key.
    pub open spec fn medical_record_at(self, k: u64) -> MedicalRecordView {
        match dec_medical_record_exact(self.medical_records_map()[k]) {
            Some(v) => v,
            None => arbitrary(),
        }
    }

    /// Every map holds exactly decodable records keyed by their own
    /// identifiers, all issued below the counter.
    pub open spec fn consistent(self) -> bool {
        &&& departments_ok(self.departments_map(), self.counter_val())
        &&& doctors_ok(self.doctors_map(), self.counter_val())
        &&& patients_ok(self.patients_map(), self.counter_val())
        &&& consultations_ok(self.consultations_map(), self.counter_val())
        &&& chats_ok(self.chats_map(), self.counter_val())
        &&& appointments_ok(self.appointments_map(), self.counter_val())
        &&& prescriptions_ok(self.prescriptions_map(), self.counter_val())
        &&& payments_ok(self.payments_map(), self.counter_val())
        &&& medical_records_ok(self.medical_records_map(), self.counter_val())
    }
}

impl Hospital {
    /// Sets up the whole store over one fresh backend: the counter in
    /// region zero starting at zero, then one region per entity map, in a
    /// fixed order that must never change across versions.
    pub fn new() -> (h: Hospital)
        ensures
            h.consistent(),
            h.counter_val() == 0,
            h.departments_map() == Map::<u64, Seq<u8>>::empty(),
            h.doctors_map() == Map::<u64, Seq<u8>>::empty(),
            h.patients_map() == Map::<u64, Seq<u8>>::empty(),
            h.consultations_map() == Map::<u64, Seq<u8>>::empty(),
            h.chats_map() == Map::<u64, Seq<u8>>::empty(),
            h.appointments_map() == Map::<u64, Seq<u8>>::empty(),
            h.prescriptions_map() == Map::<u64, Seq<u8>>::empty(),
            h.payments_map() == Map::<u64, Seq<u8>>::empty(),
            h.medical_records_map() == Map::<u64, Seq<u8>>::empty(),
    {
        let backend = StorageBackend::new();
        let mut alloc = RegionAllocator::init(backend);
        let id_counter = IdCell::init(alloc.claim_region(0), 0);
        let departments = RecordMap::init(alloc.claim_region(1));
        let doctors = RecordMap::init(alloc.claim_region(2));
        let patients = RecordMap::init(alloc.claim_region(3));
        let consultations = RecordMap::init(alloc.claim_region(4));
        let chats = RecordMap::init(alloc.claim_region(5));
        let appointments = RecordMap::init(alloc.claim_region(6));
        let prescriptions = RecordMap::init(alloc.claim_region(7));
        let payments = RecordMap::init(alloc.claim_region(8));
        let medical_records = RecordMap::init(alloc.claim_region(9));
        let h = Hospital {
            id_counter,
            departments,
            doctors,
            patients,
            consultations,
            chats,
            appointments,
            prescriptions,
            payments,
            medical_records,
        };
        proof {
            assert(Map::<u64, Seq<u8>>::empty().dom() =~= Set::<u64>::empty());
        }
        h
    }

    /// The counter's current value; the next identifier to be issued.
    pub fn counter_value(&self) -> (r: u64)
        ensures
            r == self.counter_val(),
    {
        self.id_counter.get()
    }

    /// Issues a fresh identifier: the counter's current value, which has
    /// never been returned before; the counter moves past it.
    pub fn next_id(&mut self) -> (r: u64)
        requires
            old(self).counter_val() < u64::MAX,
        ensures
            r == old(self).counter_val(),
            final(self).counter_val() == old(self).counter_val() + 1,
            same_maps(*old(self), *final(self)),
            old(self).consistent() ==> final(self).consistent(),
    {
        let current = self.id_counter.get();
        let previous = self.id_counter.set(current + 1);
        proof {
            if old(self).consistent() {
                lemma_departments_ok_mono(self.departments_map(), old(self).counter_val(), self.counter_val());
                lemma_doctors_ok_mono(self.doctors_map(), old(self).counter_val(), self.counter_val());
                lemma_patients_ok_mono(self.patients_map(), old(self).counter_val(), self.counter_val());
                lemma_consultations_ok_mono(self.consultations_map(), old(self).counter_val(), self.counter_val());
                lemma_chats_ok_mono(self.chats_map(), old(self).counter_val(), self.counter_val());
                lemma_appointments_ok_mono(self.appointments_map(), old(self).counter_val(), self.counter_val());
                lemma_prescriptions_ok_mono(self.prescriptions_map(), old(self).counter_val(), self.counter_val());
                lemma_payments_ok_mono(self.payments_map(), old(self).counter_val(), self.counter_val());
                lemma_medical_records_ok_mono(self.medical_records_map(), old(self).counter_val(), self.counter_val());
            }
        }
        previous
    }

    /// Creates a department: validates the payload, checks every
    /// referenced record exists, assigns the next identifier, stores the
    /// encoded record under it, and returns the stored copy.
    pub fn create_department(&mut self, payload: CreateDepartmentPayload, now: u64) -> (r: Result<Department, Message>)
        requires
            old(self).consistent(),
            old(self).counter_val() < u64::MAX,
        ensures
            final(self).consistent(),
            (r matches Ok(d) ==> {
                &&& !(payload.name@.len() == 0)
                &&& d.id == old(self).counter_val()
                &&& d.name == payload.name
                &&& d.description == payload.description
                &&& d.created_at == now
                &&& final(self).counter_val() == old(self).counter_val() + 1
                &&& final(self).departments_map() == old(self).departments_map().insert(d.id, enc_department(d@))
                &&& same_maps_except_departments(*old(self), *final(self))
            }),
            (r matches Err(m) ==> {
                &&& *final(self) == *old(self)
                &&& ({
                    if payload.name@.len() == 0 {
                        (m matches Message::InvalidPayload(s) && s@ == missing_fields_text())
                    } else {
                        false
                    }
                })
            }),
    {
        if payload.name.as_str().is_empty() {
            return Err(invalid_payload_msg("Missing required fields"));
        }
        let id = self.next_id();
        let d = Department { id, name: payload.name, description: payload.description, created_at: now };
        let bytes = encode_department(&d);
        self.departments.insert(id, bytes);
        proof {
            lemma_departments_ok_insert(
                old(self).departments_map(),
                old(self).counter_val(),
                self.counter_val(),
                id,
                d@,
            );
        }
        Ok(d)
    }

    /// Looks one department up by identifier.
    pub fn get_department_by_id(&self, id: u64) -> (r: Result<Department, Message>)
        requires
            self.consistent(),
        ensures
            (r matches Ok(d) ==> self.departments_map().dom().contains(id) && d@ == self.department_at(id)),
            (r matches Err(m) ==> !self.departments_map().dom().contains(id) && (m matches Message::NotFound(s) && s@ == department_not_found_text())),
    {
        match self.departments.get(id) {
            Some(bytes) => {
                proof {
                    assert(department_entry_ok(self.departments_map(), id, self.counter_val()));
                }
                match decode_department(&bytes) {
                    Some(d) => Ok(d),
                    None => {
                        proof {
                            assert(false);
                        }
                        unreached()
                    },
                }
            },
            None => Err(not_found_msg("Department not found")),
        }
    }

    /// Returns every stored department, in ascending identifier order;
    /// an empty store is reported as not found, by convention.
    #[verifier::rlimit(50)]
    #[verifier::spinoff_prover]
    pub fn get_all_departments(&self) -> (r: Result<Vec<Department>, Message>)
        requires
            self.consistent(),
        ensures
            (r matches Ok(v) ==> {
                &&& self.departments_map().dom().len() > 0
                &&& v@.len() == self.departments_map().dom().len()
                &&& forall|i: int| 0 <= i < v@.len() ==> self.departments_map().dom().contains((#[trigger] v@[i]).id) && v@[i]@ == self.department_at(v@[i].id)
                &&& forall|k: u64| #[trigger] self.departments_map().dom().contains(k) ==> exists|x: int| 0 <= x < v@.len() && (#[trigger] v@[x]).id == k
                &&& forall|i: int, j: int| 0 <= i < j < v@.len() ==> (#[trigger] v@[i]).id < (#[trigger] v@[j]).id
            }),
            (r matches Err(m) ==> self.departments_map().dom().len() == 0 && (m matches Message::NotFound(s) && s@ == no_departments_text())),
    {
        let es = self.departments.entries();
        if es.len() == 0 {
            return Err(not_found_msg("No departments found"));
        }
        let mut v: Vec<Department> = Vec::new();
        let mut i: usize = 0;
        while i < es.len()
            invariant
                i <= es@.len(),
                v@.len() == i,
                forall|j: int| 0 <= j < i ==> (#[trigger] v@[j]).id == es@[j].0 && v@[j]@ == self.department_at(es@[j].0),
            decreases es@.len() - i,
        {
            let key = es[i].0;
            proof {
                assert(self.departments_map().dom().contains(es@[i as int].0));
                assert(department_entry_ok(self.departments_map(), key, self.counter_val()));
            }
            match decode_department(&es[i].1) {
                Some(d) => {
                    proof {
                        assert(d@ == self.department_at(key));
                    }
                    v.push(d);
                },
                None => {
                    proof {
                        assert(false);
                    }
                    unreached()
                },
            }
            i = i + 1;
        }
        proof {
            assert forall|k: u64| #[trigger] self.departments_map().dom().contains(k) implies exists|x: int| 0 <= x < v@.len() && (#[trigger] v@[x]).id == k by {
                let j = choose|j: int| 0 <= j < es@.len() && (#[trigger] es@[j]).0 == k;
                assert(0 <= j < v@.len() && v@[j].id == k);
            }
            assert forall|i2: int, j2: int| 0 <= i2 < j2 < v@.len() implies (#[trigger] v@[i2]).id < (#[trigger] v@[j2]).id by {
                assert(v@[i2].id == es@[i2].0);
                assert(v@[j2].id == es@[j2].0);
            }
        }
        Ok(v)
    }

    /// Creates a doctor: validates the payload, checks every
    /// referenced record exists, assigns the next identifier, stores the
    /// encoded record under it, and returns the stored copy.
    pub fn create_doctor(&mut self, payload: CreateDoctorPayload) -> (r: Result<Doctor, Message>)
        requires
            old(self).consistent(),
            old(self).counter_val() < u64::MAX,
        ensures
            final(self).consistent(),
            (r matches Ok(d) ==> {
                &&& !(payload.name@.len() == 0)
                &&& old(self).departments_map().dom().contains(payload.department_id)
                &&& d.id == old(self).counter_val()
                &&& d.name == payload.name
                &&& d.department_id == payload.department_id
                &&& d.image == payload.image
                &&& d.is_available == true
                &&& final(self).counter_val() == old(self).counter_val() + 1
                &&& final(self).doctors_map() == old(self).doctors_map().insert(d.id, enc_doctor(d@))
                &&& same_maps_except_doctors(*old(self), *final(self))
            }),
            (r matches Err(m) ==> {
                &&& *final(self) == *old(self)
                &&& ({
                    if payload.name@.len() == 0 {
                        (m matches Message::InvalidPayload(s) && s@ == missing_fields_text())
                    } else if !old(self).departments_map().dom().contains(payload.department_id) {
                        (m matches Message::NotFound(s) && s@ == department_not_found_text())
                    } else {
                        false
                    }
                })
            }),
    {
        if payload.name.as_str().is_empty() {
            return Err(invalid_payload_msg("Missing required fields"));
        }
        if !self.departments.contains_key(payload.department_id) {
            return Err(not_found_msg("Department not found"));
        }
        let id = self.next_id();
        let d = Doctor { id, name: payload.name, department_id: payload.department_id, image: payload.image, is_available: true };
        let bytes = encode_doctor(&d);
        self.doctors.insert(id, bytes);
        proof {
            lemma_doctors_ok_insert(
                old(self).doctors_map(),
                old(self).counter_val(),
                self.counter_val(),
                id,
                d@,
            );
        }
        Ok(d)
    }

    /// Looks one doctor up by identifier.
    pub fn get_doctor_by_id(&self, id: u64) -> (r: Result<Doctor, Message>)
        requires
            self.consistent(),
        ensures
            (r matches Ok(d) ==> self.doctors_map().dom().contains(id) && d@ == self.doctor_at(id)),
            (r matches Err(m) ==> !self.doctors_map().dom().contains(id) && (m matches Message::NotFound(s) && s@ == doctor_not_found_text())),
    {
        match self.doctors.get(id) {
            Some(bytes) => {
                proof {
                    assert(doctor_entry_ok(self.doctors_map(), id, self.counter_val()));
                }
                match decode_doctor(&bytes) {
                    Some(d) => Ok(d),
                    None => {
                        proof {
                            assert(false);
                        }
                        unreached()
                    },
                }
            },
            None => Err(not_found_msg("Doctor not found")),
        }
    }

    /// Returns every stored doctor, in ascending identifier order;
    /// an empty store is reported as not found, by convention.
    #[verifier::rlimit(50)]
    #[verifier::spinoff_prover]
    pub fn get_all_doctors(&self) -> (r: Result<Vec<Doctor>, Message>)
        requires
            self.consistent(),
        ensures
            (r matches Ok(v) ==> {
                &&& self.doctors_map().dom().len() > 0
                &&& v@.len() == self.doctors_map().dom().len()
                &&& forall|i: int| 0 <= i < v@.len() ==> self.doctors_map().dom().contains((#[trigger] v@[i]).id) && v@[i]@ == self.doctor_at(v@[i].id)
                &&& forall|k: u64| #[trigger] self.doctors_map().dom().contains(k) ==> exists|x: int| 0 <= x < v@.len() && (#[trigger] v@[x]).id == k
                &&& forall|i: int, j: int| 0 <= i < j < v@.len() ==> (#[trigger] v@[i]).id < (#[trigger] v@[j]).id
            }),
            (r matches Err(m) ==> self.doctors_map().dom().len() == 0 && (m matches Message::NotFound(s) && s@ == no_doctors_text())),
    {
        let es = self.doctors.entries();
        if es.len() == 0 {
            return Err(not_found_msg("No doctors found"));
        }
        let mut v: Vec<Doctor> = Vec::new();
        let mut i: usize = 0;
        while i < es.len()
            invariant
                i <= es@.len(),
                v@.len() == i,
                forall|j: int| 0 <= j < i ==> (#[trigger] v@[j]).id == es@[j].0 && v@[j]@ == self.doctor_at(es@[j].0),
            decreases es@.len() - i,
        {
            let key = es[i].0;
            proof {
                assert(self.doctors_map().dom().contains(es@[i as int].0));
                assert(doctor_entry_ok(self.doctors_map(), key, self.counter_val()));
            }
            match decode_doctor(&es[i].1) {
                Some(d) => {
                    proof {
                        assert(d@ == self.doctor_at(key));
                    }
                    v.push(d);
                },
                None => {
                    proof {
                        assert(false);
                    }
                    unreached()
                },
            }
            i = i + 1;
        }
        proof {
            assert forall|k: u64| #[trigger] self.doctors_map().dom().contains(k) implies exists|x: int| 0 <= x < v@.len() && (#[trigger] v@[x]).id == k by {
                let j = choose|j: int| 0 <= j < es@.len() && (#[trigger] es@[j]).0 == k;
                assert(0 <= j < v@.len() && v@[j].id == k);
            }
            assert forall|i2: int, j2: int| 0 <= i2 < j2 < v@.len() implies (#[trigger] v@[i2]).id < (#[trigger] v@[j2]).id by {
                assert(v@[i2].id == es@[i2].0);
                assert(v@[j2].id == es@[j2].0);
            }
        }
        Ok(v)
    }

    /// Creates a patient: validates the payload, checks every
    /// referenced record exists, assigns the next identifier, stores the
    /// encoded record under it, and returns the stored copy.
    pub fn create_patient(&mut self, payload: CreatePatientPayload) -> (r: Result<Patient, Message>)
        requires
            old(self).consistent(),
            old(self).counter_val() < u64::MAX,
        ensures
            final(self).consistent(),
            (r matches Ok(d) ==> {
                &&& !(payload.name@.len() == 0 || payload.phone_number@.len() == 0 || payload.email@.len() == 0)
                &&& d.id == old(self).counter_val()
                &&& d.name == payload.name
                &&& d.age == payload.age
                &&& d.gender == payload.gender
                &&& d.phone_number == payload.phone_number
                &&& d.email == payload.email
                &&& d.address == payload.address
                &&& d.emergency_contact == payload.emergency_contact
                &&& d.allergies == payload.allergies
                &&& d.current_medications == payload.current_medications
                &&& d.medical_history == payload.medical_history
                &&& final(self).counter_val() == old(self).counter_val() + 1
                &&& final(self).patients_map() == old(self).patients_map().insert(d.id, enc_patient(d@))
                &&& same_maps_except_patients(*old(self), *final(self))
            }),
            (r matches Err(m) ==> {
                &&& *final(self) == *old(self)
                &&& ({
                    if payload.name@.len() == 0 || payload.phone_number@.len() == 0 || payload.email@.len() == 0 {
                        (m matches Message::InvalidPayload(s) && s@ == missing_fields_text())
                    } else {
                        false
                    }
                })
            }),
    {
        if payload.name.as_str().is_empty() || payload.phone_number.as_str().is_empty() || payload.email.as_str().is_empty() {
            return Err(invalid_payload_msg("Missing required fields"));
        }
        let id = self.next_id();
        let d = Patient { id, name: payload.name, age: payload.age, gender: payload.gender, phone_number: payload.phone_number, email: payload.email, address: payload.address, emergency_contact: payload.emergency_contact, allergies: payload.allergies, current_medications: payload.current_medications, medical_history: payload.medical_history };
        let bytes = encode_patient(&d);
        self.patients.insert(id, bytes);
        proof {
            lemma_patients_ok_insert(
                old(self).patients_map(),
                old(self).counter_val(),
                self.counter_val(),
                id,
                d@,
            );
        }
        Ok(d)
    }

    /// Looks one patient up by identifier.
    pub fn get_patient_by_id(&self, id: u64) -> (r: Result<Patient, Message>)
        requires
            self.consistent(),
        ensures
            (r matches Ok(d) ==> self.patients_map().dom().contains(id) && d@ == self.patient_at(id)),
            (r matches Err(m) ==> !self.patients_map().dom().contains(id) && (m matches Message::NotFound(s) && s@ == patient_not_found_text())),
    {
        match self.patients.get(id) {
            Some(bytes) => {
                proof {
                    assert(patient_entry_ok(self.patients_map(), id, self.counter_val()));
                }
                match decode_patient(&bytes) {
                    Some(d) => Ok(d),
                    None => {
                        proof {
                            assert(false);
                        }
                        unreached()
                    },
                }
            },
            None => Err(not_found_msg("Patient not found")),
        }
    }

    /// Returns every stored patient, in ascending identifier order;
    /// an empty store is reported as not found, by convention.
    #[verifier::rlimit(50)]
    #[verifier::spinoff_prover]
    pub fn get_all_patients(&self) -> (r: Result<Vec<Patient>, Message>)
        requires
            self.consistent(),
        ensures
            (r matches Ok(v) ==> {
                &&& self.patients_map().dom().len() > 0
                &&& v@.len() == self.patients_map().dom().len()
                &&& forall|i: int| 0 <= i < v@.len() ==> self.patients_map().dom().contains((#[trigger] v@[i]).id) && v@[i]@ == self.patient_at(v@[i].id)
                &&& forall|k: u64| #[trigger] self.patients_map().dom().contains(k) ==> exists|x: int| 0 <= x < v@.len() && (#[trigger] v@[x]).id == k
                &&& forall|i: int, j: int| 0 <= i < j < v@.len() ==> (#[trigger] v@[i]).id < (#[trigger] v@[j]).id
            }),
            (r matches Err(m) ==> self.patients_map().dom().len() == 0 && (m matches Message::NotFound(s) && s@ == no_patients_text())),
    {
        let es = self.patients.entries();
        if es.len() == 0 {
            return Err(not_found_msg("No patients found"));
        }
        let mut v: Vec<Patient> = Vec::new();
        let mut i: usize = 0;
        while i < es.len()
            invariant
                i <= es@.len(),
                v@.len() == i,
                forall|j: int| 0 <= j < i ==> (#[trigger] v@[j]).id == es@[j].0 && v@[j]@ == self.patient_at(es@[j].0),
            decreases es@.len() - i,
        {
            let key = es[i].0;
            proof {
                assert(self.patients_map().dom().contains(es@[i as int].0));
                assert(patient_entry_ok(self.patients_map(), key, self.counter_val()));
            }
            match decode_patient(&es[i].1) {
                Some(d) => {
                    proof {
                        assert(d@ == self.patient_at(key));
                    }
                    v.push(d);
                },
                None => {
                    proof {
                        assert(false);
                    }
                    unreached()
                },
            }
            i = i + 1;
        }
        proof {
            assert forall|k: u64| #[trigger] self.patients_map().dom().contains(k) implies exists|x: int| 0 <= x < v@.len() && (#[trigger] v@[x]).id == k by {
                let j = choose|j: int| 0 <= j < es@.len() && (#[trigger] es@[j]).0 == k;
                assert(0 <= j < v@.len() && v@[j].id == k);
            }
            assert forall|i2: int, j2: int| 0 <= i2 < j2 < v@.len() implies (#[trigger] v@[i2]).id < (#[trigger] v@[j2]).id by {
                assert(v@[i2].id == es@[i2].0);
                assert(v@[j2].id == es@[j2].0);
            }
        }
        Ok(v)
    }

    /// Creates a consultation: validates the payload, checks every
    /// referenced record exists, assigns the next identifier, stores the
    /// encoded record under it, and returns the stored copy.
    pub fn create_consultation(&mut self, payload: CreateConsultationPayload) -> (r: Result<Consultation, Message>)
        requires
            old(self).consistent(),
            old(self).counter_val() < u64::MAX,
        ensures
            final(self).consistent(),
            (r matches Ok(d) ==> {
                &&& !(payload.patient_id == 0 || payload.problem@.len() == 0 || payload.department_id == 0)
                &&& old(self).patients_map().dom().contains(payload.patient_id)
                &&& old(self).departments_map().dom().contains(payload.department_id)
                &&& d.id == old(self).counter_val()
                &&& d.patient_id == payload.patient_id
                &&& d.problem == payload.problem
                &&& d.department_id == payload.department_id
                &&& final(self).counter_val() == old(self).counter_val() + 1
                &&& final(self).consultations_map() == old(self).consultations_map().insert(d.id, enc_consultation(d@))
                &&& same_maps_except_consultations(*old(self), *final(self))
            }),
            (r matches Err(m) ==> {
                &&& *final(self) == *old(self)
                &&& ({
                    if payload.patient_id == 0 || payload.problem@.len() == 0 || payload.department_id == 0 {
                        (m matches Message::InvalidPayload(s) && s@ == missing_fields_text())
                    } else if !old(self).patients_map().dom().contains(payload.patient_id) {
                        (m matches Message::NotFound(s) && s@ == patient_not_found_text())
                    } else if !old(self).departments_map().dom().contains(payload.department_id) {
                        (m matches Message::NotFound(s) && s@ == department_not_found_text())
                    } else {
                        false
                    }
                })
            }),
    {
        if payload.patient_id == 0 || payload.problem.as_str().is_empty() || payload.department_id == 0 {
            return Err(invalid_payload_msg("Missing required fields"));
        }
        if !self.patients.contains_key(payload.patient_id) {
            return Err(not_found_msg("Patient not found"));
        }
        if !self.departments.contains_key(payload.department_id) {
            return Err(not_found_msg("Department not found"));
        }
        let id = self.next_id();
        let d = Consultation { id, patient_id: payload.patient_id, problem: payload.problem, department_id: payload.department_id };
        let bytes = encode_consultation(&d);
        self.consultations.insert(id, bytes);
        proof {
            lemma_consultations_ok_insert(
                old(self).consultations_map(),
                old(self).counter_val(),
                self.counter_val(),
                id,
                d@,
            );
        }
        Ok(d)
    }

    /// Looks one consultation up by identifier.
    pub fn get_consultation_by_id(&self, id: u64) -> (r: Result<Consultation, Message>)
        requires
            self.consistent(),
        ensures
            (r matches Ok(d) ==> self.consultations_map().dom().contains(id) && d@ == self.consultation_at(id)),
            (r matches Err(m) ==> !self.consultations_map().dom().contains(id) && (m matches Message::NotFound(s) && s@ == consultation_not_found_text())),
    {
        match self.consultations.get(id) {
            Some(bytes) => {
                proof {
                    assert(consultation_entry_ok(self.consultations_map(), id, self.counter_val()));
                }
                match decode_consultation(&bytes) {
                    Some(d) => Ok(d),
                    None => {
                        proof {
                            assert(false);
                        }
                        unreached()
                    },
                }
            },
            None => Err(not_found_msg("Consultation not found")),
        }
    }

    /// Returns every stored consultation, in ascending identifier order;
    /// an empty store is reported as not found, by convention.
    #[verifier::rlimit(50)]
    #[verifier::spinoff_prover]
    pub fn get_all_consultations(&self) -> (r: Result<Vec<Consultation>, Message>)
        requires
            self.consistent(),
        ensures
            (r matches Ok(v) ==> {
                &&& self.consultations_map().dom().len() > 0
                &&& v@.len() == self.consultations_map().dom().len()
                &&& forall|i: int| 0 <= i < v@.len() ==> self.consultations_map().dom().contains((#[trigger] v@[i]).id) && v@[i]@ == self.consultation_at(v@[i].id)
                &&& forall|k: u64| #[trigger] self.consultations_map().dom().contains(k) ==> exists|x: int| 0 <= x < v@.len() && (#[trigger] v@[x]).id == k
                &&& forall|i: int, j: int| 0 <= i < j < v@.len() ==> (#[trigger] v@[i]).id < (#[trigger] v@[j]).id
            }),
            (r matches Err(m) ==> self.consultations_map().dom().len() == 0 && (m matches Message::NotFound(s) && s@ == no_consultations_text())),
    {
        let es = self.consultations.entries();
        if es.len() == 0 {
            return Err(not_found_msg("No consultations found"));
        }
        let mut v: Vec<Consultation> = Vec::new();
        let mut i: usize = 0;
        while i < es.len()
            invariant
                i <= es@.len(),
                v@.len() == i,
                forall|j: int| 0 <= j < i ==> (#[trigger] v@[j]).id == es@[j].0 && v@[j]@ == self.consultation_at(es@[j].0),
            decreases es@.len() - i,
        {
            let key = es[i].0;
            proof {
                assert(self.consultations_map().dom().contains(es@[i as int].0));
                assert(consultation_entry_ok(self.consultations_map(), key, self.counter_val()));
            }
            match decode_consultation(&es[i].1) {
                Some(d) => {
                    proof {
                        assert(d@ == self.consultation_at(key));
                    }
                    v.push(d);
                },
                None => {
                    proof {
                        assert(false);
                    }
                    unreached()
                },
            }
            i = i + 1;
        }
        proof {
            assert forall|k: u64| #[trigger] self.consultations_map().dom().contains(k) implies exists|x: int| 0 <= x < v@.len() && (#[trigger] v@[x]).id == k by {
                let j = choose|j: int| 0 <= j < es@.len() && (#[trigger] es@[j]).0 == k;
                assert(0 <= j < v@.len() && v@[j].id == k);
            }
            assert forall|i2: int, j2: int| 0 <= i2 < j2 < v@.len() implies (#[trigger] v@[i2]).id < (#[trigger] v@[j2]).id by {
                assert(v@[i2].id == es@[i2].0);
                assert(v@[j2].id == es@[j2].0);
            }
        }
        Ok(v)
    }

    /// Creates a chat: validates the payload, checks every
    /// referenced record exists, assigns the next identifier, stores the
    /// encoded record under it, and returns the stored copy.
    pub fn create_chat(&mut self, payload: CreateChatPayload) -> (r: Result<Chat, Message>)
        requires
            old(self).consistent(),
            old(self).counter_val() < u64::MAX,
        ensures
            final(self).consistent(),
            (r matches Ok(d) ==> {
                &&& !(payload.patient_id == 0 || payload.doctor_id == 0 || payload.message@.len() == 0)
                &&& old(self).patients_map().dom().contains(payload.patient_id)
                &&& old(self).doctors_map().dom().contains(payload.doctor_id)
                &&& d.id == old(self).counter_val()
                &&& d.patient_id == payload.patient_id
                &&& d.doctor_id == payload.doctor_id
                &&& d.message == payload.message
                &&& d.timestamp == payload.timestamp
                &&& final(self).counter_val() == old(self).counter_val() + 1
                &&& final(self).chats_map() == old(self).chats_map().insert(d.id, enc_chat(d@))
                &&& same_maps_except_chats(*old(self), *final(self))
            }),
            (r matches Err(m) ==> {
                &&& *final(self) == *old(self)
                &&& ({
                    if payload.patient_id == 0 || payload.doctor_id == 0 || payload.message@.len() == 0 {
                        (m matches Message::InvalidPayload(s) && s@ == missing_fields_text())
                    } else if !old(self).patients_map().dom().contains(payload.patient_id) {
                        (m matches Message::NotFound(s) && s@ == patient_not_found_text())
                    } else if !old(self).doctors_map().dom().contains(payload.doctor_id) {
                        (m matches Message::NotFound(s) && s@ == doctor_not_found_text())
                    } else {
                        false
                    }
                })
            }),
    {
        if payload.patient_id == 0 || payload.doctor_id == 0 || payload.message.as_str().is_empty() {
            return Err(invalid_payload_msg("Missing required fields"));
        }
        if !self.patients.contains_key(payload.patient_id) {
            return Err(not_found_msg("Patient not found"));
        }
        if !self.doctors.contains_key(payload.doctor_id) {
            return Err(not_found_msg("Doctor not found"));
        }
        let id = self.next_id();
        let d = Chat { id, patient_id: payload.patient_id, doctor_id: payload.doctor_id, message: payload.message, timestamp: payload.timestamp };
        let bytes = encode_chat(&d);
        self.chats.insert(id, bytes);
        proof {
            lemma_chats_ok_insert(
                old(self).chats_map(),
                old(self).counter_val(),
                self.counter_val(),
                id,
                d@,
            );
        }
        Ok(d)
    }

    /// Looks one chat up by identifier.
    pub fn get_chat_by_id(&self, id: u64) -> (r: Result<Chat, Message>)
        requires
            self.consistent(),
        ensures
            (r matches Ok(d) ==> self.chats_map().dom().contains(id) && d@ == self.chat_at(id)),
            (r matches Err(m) ==> !self.chats_map().dom().contains(id) && (m matches Message::NotFound(s) && s@ == chat_not_found_text())),
    {
        match self.chats.get(id) {
            Some(bytes) => {
                proof {
                    assert(chat_entry_ok(self.chats_map(), id, self.counter_val()));
                }
                match decode_chat(&bytes) {
                    Some(d) => Ok(d),
                    None => {
                        proof {
                            assert(false);
                        }
                        unreached()
                    },
                }
            },
            None => Err(not_found_msg("Chat not found")),
        }
    }

    /// Returns every stored chat, in ascending identifier order;
    /// an empty store is reported as not found, by convention.
    #[verifier::rlimit(50)]
    #[verifier::spinoff_prover]
    pub fn get_all_chats(&self) -> (r: Result<Vec<Chat>, Message>)
        requires
            self.consistent(),
        ensures
            (r matches Ok(v) ==> {
                &&& self.chats_map().dom().len() > 0
                &&& v@.len() == self.chats_map().dom().len()
                &&& forall|i: int| 0 <= i < v@.len() ==> self.chats_map().dom().contains((#[trigger] v@[i]).id) && v@[i]@ == self.chat_at(v@[i].id)
                &&& forall|k: u64| #[trigger] self.chats_map().dom().contains(k) ==> exists|x: int| 0 <= x < v@.len() && (#[trigger] v@[x]).id == k
                &&& forall|i: int, j: int| 0 <= i < j < v@.len() ==> (#[trigger] v@[i]).id < (#[trigger] v@[j]).id
            }),
            (r matches Err(m) ==> self.chats_map().dom().len() == 0 && (m matches Message::NotFound(s) && s@ == no_chats_text())),
    {
        let es = self.chats.entries();
        if es.len() == 0 {
            return Err(not_found_msg("No chats found"));
        }
        let mut v: Vec<Chat> = Vec::new();
        let mut i: usize = 0;
        while i < es.len()
            invariant
                i <= es@.len(),
                v@.len() == i,
                forall|j: int| 0 <= j < i ==> (#[trigger] v@[j]).id == es@[j].0 && v@[j]@ == self.chat_at(es@[j].0),
            decreases es@.len() - i,
        {
            let key = es[i].0;
            proof {
                assert(self.chats_map().dom().contains(es@[i as int].0));
                assert(chat_entry_ok(self.chats_map(), key, self.counter_val()));
            }
            match decode_chat(&es[i].1) {
                Some(d) => {
                    proof {
                        assert(d@ == self.chat_at(key));
                    }
                    v.push(d);
                },
                None => {
                    proof {
                        assert(false);
                    }
                    unreached()
                },
            }
            i = i + 1;
        }
        proof {
            assert forall|k: u64| #[trigger] self.chats_map().dom().contains(k) implies exists|x: int| 0 <= x < v@.len() && (#[trigger] v@[x]).id == k by {
                let j = choose|j: int| 0 <= j < es@.len() && (#[trigger] es@[j]).0 == k;
                assert(0 <= j < v@.len() && v@[j].id == k);
            }
            assert forall|i2: int, j2: int| 0 <= i2 < j2 < v@.len() implies (#[trigger] v@[i2]).id < (#[trigger] v@[j2]).id by {
                assert(v@[i2].id == es@[i2].0);
                assert(v@[j2].id == es@[j2].0);
            }
        }
        Ok(v)
    }

    /// Creates a appointment: validates the payload, checks every
    /// referenced record exists, assigns the next identifier, stores the
    /// encoded record under it, and returns the stored copy.
    pub fn create_appointment(&mut self, payload: CreateAppointmentPayload) -> (r: Result<Appointment, Message>)
        requires
            old(self).consistent(),
            old(self).counter_val() < u64::MAX,
        ensures
            final(self).consistent(),
            (r matches Ok(d) ==> {
                &&& !(payload.patient_id == 0 || payload.doctor_id == 0 || payload.reason@.len() == 0 || payload.appointment_time == 0)
                &&& old(self).patients_map().dom().contains(payload.patient_id)
                &&& old(self).doctors_map().dom().contains(payload.doctor_id)
                &&& d.id == old(self).counter_val()
                &&& d.patient_id == payload.patient_id
                &&& d.doctor_id == payload.doctor_id
                &&& d.reason == payload.reason
                &&& d.appointment_time == payload.appointment_time
                &&& d.status@ == scheduled_text()
                &&& d.video_link is None
                &&& final(self).counter_val() == old(self).counter_val() + 1
                &&& final(self).appointments_map() == old(self).appointments_map().insert(d.id, enc_appointment(d@))
                &&& same_maps_except_appointments(*old(self), *final(self))
            }),
            (r matches Err(m) ==> {
                &&& *final(self) == *old(self)
                &&& ({
                    if payload.patient_id == 0 || payload.doctor_id == 0 || payload.reason@.len() == 0 || payload.appointment_time == 0 {
                        (m matches Message::InvalidPayload(s) && s@ == missing_fields_text())
                    } else if !old(self).patients_map().dom().contains(payload.patient_id) {
                        (m matches Message::NotFound(s) && s@ == patient_not_found_text())
                    } else if !old(self).doctors_map().dom().contains(payload.doctor_id) {
                        (m matches Message::NotFound(s) && s@ == doctor_not_found_text())
                    } else {
                        false
                    }
                })
            }),
    {
        if payload.patient_id == 0 || payload.doctor_id == 0 || payload.reason.as_str().is_empty() || payload.appointment_time == 0 {
            return Err(invalid_payload_msg("Missing required fields"));
        }
        if !self.patients.contains_key(payload.patient_id) {
            return Err(not_found_msg("Patient not found"));
        }
        if !self.doctors.contains_key(payload.doctor_id) {
            return Err(not_found_msg("Doctor not found"));
        }
        let id = self.next_id();
        let d = Appointment { id, patient_id: payload.patient_id, doctor_id: payload.doctor_id, reason: payload.reason, appointment_time: payload.appointment_time, status: String::from_str("scheduled"), video_link: None };
        let bytes = encode_appointment(&d);
        self.appointments.insert(id, bytes);
        proof {
            lemma_appointments_ok_insert(
                old(self).appointments_map(),
                old(self).counter_val(),
                self.counter_val(),
                id,
                d@,
            );
        }
        Ok(d)
    }

    /// Looks one appointment up by identifier.
    pub fn get_appointment_by_id(&self, id: u64) -> (r: Result<Appointment, Message>)
        requires
            self.consistent(),
        ensures
            (r matches Ok(d) ==> self.appointments_map().dom().contains(id) && d@ == self.appointment_at(id)),
            (r matches Err(m) ==> !self.appointments_map().dom().contains(id) && (m matches Message::NotFound(s) && s@ == appointment_not_found_text())),
    {
        match self.appointments.get(id) {
            Some(bytes) => {
                proof {
                    assert(appointment_entry_ok(self.appointments_map(), id, self.counter_val()));
                }
                match decode_appointment(&bytes) {
                    Some(d) => Ok(d),
                    None => {
                        proof {
                            assert(false);
                        }
                        unreached()
                    },
                }
            },
            None => Err(not_found_msg("Appointment not found")),
        }
    }

    /// Returns every stored appointment, in ascending identifier order;
    /// an empty store is reported as not found, by convention.
    #[verifier::rlimit(50)]
    #[verifier::spinoff_prover]
    pub fn get_all_appointments(&self) -> (r: Result<Vec<Appointment>, Message>)
        requires
            self.consistent(),
        ensures
            (r matches Ok(v) ==> {
                &&& self.appointments_map().dom().len() > 0
                &&& v@.len() == self.appointments_map().dom().len()
                &&& forall|i: int| 0 <= i < v@.len() ==> self.appointments_map().dom().contains((#[trigger] v@[i]).id) && v@[i]@ == self.appointment_at(v@[i].id)
                &&& forall|k: u64| #[trigger] self.appointments_map().dom().contains(k) ==> exists|x: int| 0 <= x < v@.len() && (#[trigger] v@[x]).id == k
                &&& forall|i: int, j: int| 0 <= i < j < v@.len() ==> (#[trigger] v@[i]).id < (#[trigger] v@[j]).id
            }),
            (r matches Err(m) ==> self.appointments_map().dom().len() == 0 && (m matches Message::NotFound(s) && s@ == no_appointments_text())),
    {
        let es = self.appointments.entries();
        if es.len() == 0 {
            return Err(not_found_msg("No appointments found"));
        }
        let mut v: Vec<Appointment> = Vec::new();
        let mut i: usize = 0;
        while i < es.len()
            invariant
                i <= es@.len(),
                v@.len() == i,
                forall|j: int| 0 <= j < i ==> (#[trigger] v@[j]).id == es@[j].0 && v@[j]@ == self.appointment_at(es@[j].0),
            decreases es@.len() - i,
        {
            let key = es[i].0;
            proof {
                assert(self.appointments_map().dom().contains(es@[i as int].0));
                assert(appointment_entry_ok(self.appointments_map(), key, self.counter_val()));
            }
            match decode_appointment(&es[i].1) {
                Some(d) => {
                    proof {
                        assert(d@ == self.appointment_at(key));
                    }
                    v.push(d);
                },
                None => {
                    proof {
                        assert(false);
                    }
                    unreached()
                },
            }
            i = i + 1;
        }
        proof {
            assert forall|k: u64| #[trigger] self.appointments_map().dom().contains(k) implies exists|x: int| 0 <= x < v@.len() && (#[trigger] v@[x]).id == k by {
                let j = choose|j: int| 0 <= j < es@.len() && (#[trigger] es@[j]).0 == k;
                assert(0 <= j < v@.len() && v@[j].id == k);
            }
            assert forall|i2: int, j2: int| 0 <= i2 < j2 < v@.len() implies (#[trigger] v@[i2]).id < (#[trigger] v@[j2]).id by {
                assert(v@[i2].id == es@[i2].0);
                assert(v@[j2].id == es@[j2].0);
            }
        }
        Ok(v)
    }

    /// Creates a prescription: validates the payload, checks every
    /// referenced record exists, assigns the next identifier, stores the
    /// encoded record under it, and returns the stored copy.
    pub fn create_prescription(&mut self, payload: CreatePrescriptionPayload, now: u64) -> (r: Result<Prescription, Message>)
        requires
            old(self).consistent(),
            old(self).counter_val() < u64::MAX,
        ensures
            final(self).consistent(),
            (r matches Ok(d) ==> {
                &&& !(payload.patient_id == 0 || payload.medications@.len() == 0 || payload.instructions@.len() == 0)
                &&& old(self).patients_map().dom().contains(payload.patient_id)
                &&& old(self).doctors_map().dom().contains(payload.doctor_id)
                &&& d.id == old(self).counter_val()
                &&& d.patient_id == payload.patient_id
                &&& d.doctor_id == payload.doctor_id
                &&& d.medications == payload.medications
                &&& d.instructions == payload.instructions
                &&& d.issued_at == now
                &&& final(self).counter_val() == old(self).counter_val() + 1
                &&& final(self).prescriptions_map() == old(self).prescriptions_map().insert(d.id, enc_prescription(d@))
                &&& same_maps_except_prescriptions(*old(self), *final(self))
            }),
            (r matches Err(m) ==> {
                &&& *final(self) == *old(self)
                &&& ({
                    if payload.patient_id == 0 || payload.medications@.len() == 0 || payload.instructions@.len() == 0 {
                        (m matches Message::InvalidPayload(s) && s@ == missing_fields_text())
                    } else if !old(self).patients_map().dom().contains(payload.patient_id) {
                        (m matches Message::NotFound(s) && s@ == patient_not_found_text())
                    } else if !old(self).doctors_map().dom().contains(payload.doctor_id) {
                        (m matches Message::NotFound(s) && s@ == doctor_not_found_text())
                    } else {
                        false
                    }
                })
            }),
    {
        if payload.patient_id == 0 || payload.medications.is_empty() || payload.instructions.as_str().is_empty() {
            return Err(invalid_payload_msg("Missing required fields"));
        }
        if !self.patients.contains_key(payload.patient_id) {
            return Err(not_found_msg("Patient not found"));
        }
        if !self.doctors.contains_key(payload.doctor_id) {
            return Err(not_found_msg("Doctor not found"));
        }
        let id = self.next_id();
        let d = Prescription { id, patient_id: payload.patient_id, doctor_id: payload.doctor_id, medications: payload.medications, instructions: payload.instructions, issued_at: now };
        let bytes = encode_prescription(&d);
        self.prescriptions.insert(id, bytes);
        proof {
            lemma_prescriptions_ok_insert(
                old(self).prescriptions_map(),
                old(self).counter_val(),
                self.counter_val(),
                id,
                d@,
            );
        }
        Ok(d)
    }

    /// Looks one prescription up by identifier.
    pub fn get_prescription_by_id(&self, id: u64) -> (r: Result<Prescription, Message>)
        requires
            self.consistent(),
        ensures
            (r matches Ok(d) ==> self.prescriptions_map().dom().contains(id) && d@ == self.prescription_at(id)),
            (r matches Err(m) ==> !self.prescriptions_map().dom().contains(id) && (m matches Message::NotFound(s) && s@ == prescription_not_found_text())),
    {
        match self.prescriptions.get(id) {
            Some(bytes) => {
                proof {
                    assert(prescription_entry_ok(self.prescriptions_map(), id, self.counter_val()));
                }
                match decode_prescription(&bytes) {
                    Some(d) => Ok(d),
                    None => {
                        proof {
                            assert(false);
                        }
                        unreached()
                    },
                }
            },
            None => Err(not_found_msg("Prescription not found")),
        }
    }

    /// Returns every stored prescription, in ascending identifier order;
    /// an empty store is reported as not found, by convention.
    #[verifier::rlimit(50)]
    #[verifier::spinoff_prover]
    pub fn get_all_prescriptions(&self) -> (r: Result<Vec<Prescription>, Message>)
        requires
            self.consistent(),
        ensures
            (r matches Ok(v) ==> {
                &&& self.prescriptions_map().dom().len() > 0
                &&& v@.len() == self.prescriptions_map().dom().len()
                &&& forall|i: int| 0 <= i < v@.len() ==> self.prescriptions_map().dom().contains((#[trigger] v@[i]).id) && v@[i]@ == self.prescription_at(v@[i].id)
                &&& forall|k: u64| #[trigger] self.prescriptions_map().dom().contains(k) ==> exists|x: int| 0 <= x < v@.len() && (#[trigger] v@[x]).id == k
                &&& forall|i: int, j: int| 0 <= i < j < v@.len() ==> (#[trigger] v@[i]).id < (#[trigger] v@[j]).id
            }),
            (r matches Err(m) ==> self.prescriptions_map().dom().len() == 0 && (m matches Message::NotFound(s) && s@ == no_prescriptions_text())),
    {
        let es = self.prescriptions.entries();
        if es.len() == 0 {
            return Err(not_found_msg("No prescriptions found"));
        }
        let mut v: Vec<Prescription> = Vec::new();
        let mut i: usize = 0;
        while i < es.len()
            invariant
                i <= es@.len(),
                v@.len() == i,
                forall|j: int| 0 <= j < i ==> (#[trigger] v@[j]).id == es@[j].0 && v@[j]@ == self.prescription_at(es@[j].0),
            decreases es@.len() - i,
        {
            let key = es[i].0;
            proof {
                assert(self.prescriptions_map().dom().contains(es@[i as int].0));
                assert(prescription_entry_ok(self.prescriptions_map(), key, self.counter_val()));
            }
            match decode_prescription(&es[i].1) {
                Some(d) => {
                    proof {
                        assert(d@ == self.prescription_at(key));
                    }
                    v.push(d);
                },
                None => {
                    proof {
                        assert(false);
                    }
                    unreached()
                },
            }
            i = i + 1;
        }
        proof {
            assert forall|k: u64| #[trigger] self.prescriptions_map().dom().contains(k) implies exists|x: int| 0 <= x < v@.len() && (#[trigger] v@[x]).id == k by {
                let j = choose|j: int| 0 <= j < es@.len() && (#[trigger] es@[j]).0 == k;
                assert(0 <= j < v@.len() && v@[j].id == k);
            }
            assert forall|i2: int, j2: int| 0 <= i2 < j2 < v@.len() implies (#[trigger] v@[i2]).id < (#[trigger] v@[j2]).id by {
                assert(v@[i2].id == es@[i2].0);
                assert(v@[j2].id == es@[j2].0);
            }
        }
        Ok(v)
    }

    /// Creates a payment: validates the payload, checks every
    /// referenced record exists, assigns the next identifier, stores the
    /// encoded record under it, and returns the stored copy.
    pub fn create_payment(&mut self, payload: CreatePaymentPayload) -> (r: Result<Payment, Message>)
        requires
            old(self).consistent(),
            old(self).counter_val() < u64::MAX,
        ensures
            final(self).consistent(),
            (r matches Ok(d) ==> {
                &&& !(payload.patient_id == 0 || payload.appointment_id == 0 || payload.amount == 0 || payload.payment_method@.len() == 0)
                &&& old(self).patients_map().dom().contains(payload.patient_id)
                &&& old(self).appointments_map().dom().contains(payload.appointment_id)
                &&& d.id == old(self).counter_val()
                &&& d.appointment_id == payload.appointment_id
                &&& d.patient_id == payload.patient_id
                &&& d.amount == payload.amount
                &&& d.status@ == pending_text()
                &&& d.payment_method == payload.payment_method
                &&& final(self).counter_val() == old(self).counter_val() + 1
                &&& final(self).payments_map() == old(self).payments_map().insert(d.id, enc_payment(d@))
                &&& same_maps_except_payments(*old(self), *final(self))
            }),
            (r matches Err(m) ==> {
                &&& *final(self) == *old(self)
                &&& ({
                    if payload.patient_id == 0 || payload.appointment_id == 0 || payload.amount == 0 || payload.payment_method@.len() == 0 {
                        (m matches Message::InvalidPayload(s) && s@ == missing_fields_text())
                    } else if !old(self).patients_map().dom().contains(payload.patient_id) {
                        (m matches Message::NotFound(s) && s@ == patient_not_found_text())
                    } else if !old(self).appointments_map().dom().contains(payload.appointment_id) {
                        (m matches Message::NotFound(s) && s@ == appointment_not_found_text())
                    } else {
                        false
                    }
                })
            }),
    {
        if payload.patient_id == 0 || payload.appointment_id == 0 || payload.amount == 0 || payload.payment_method.as_str().is_empty() {
            return Err(invalid_payload_msg("Missing required fields"));
        }
        if !self.patients.contains_key(payload.patient_id) {
            return Err(not_found_msg("Patient not found"));
        }
        if !self.appointments.contains_key(payload.appointment_id) {
            return Err(not_found_msg("Appointment not found"));
        }
        let id = self.next_id();
        let d = Payment { id, appointment_id: payload.appointment_id, patient_id: payload.patient_id, amount: payload.amount, status: String::from_str("pending"), payment_method: payload.payment_method };
        let bytes = encode_payment(&d);
        self.payments.insert(id, bytes);
        proof {
            lemma_payments_ok_insert(
                old(self).payments_map(),
                old(self).counter_val(),
                self.counter_val(),
                id,
                d@,
            );
        }
        Ok(d)
    }

    /// Looks one payment up by identifier.
    pub fn get_payment_by_id(&self, id: u64) -> (r: Result<Payment, Message>)
        requires
            self.consistent(),
        ensures
            (r matches Ok(d) ==> self.payments_map().dom().contains(id) && d@ == self.payment_at(id)),
            (r matches Err(m) ==> !self.payments_map().dom().contains(id) && (m matches Message::NotFound(s) && s@ == payment_not_found_text())),
    {
        match self.payments.get(id) {
            Some(bytes) => {
                proof {
                    assert(payment_entry_ok(self.payments_map(), id, self.counter_val()));
                }
                match decode_payment(&bytes) {
                    Some(d) => Ok(d),
                    None => {
                        proof {
                            assert(false);
                        }
                        unreached()
                    },
                }
            },
            None => Err(not_found_msg("Payment not found")),
        }
    }

    /// Returns every stored payment, in ascending identifier order;
    /// an empty store is reported as not found, by convention.
    #[verifier::rlimit(50)]
    #[verifier::spinoff_prover]
    pub fn get_all_payments(&self) -> (r: Result<Vec<Payment>, Message>)
        requires
            self.consistent(),
        ensures
            (r matches Ok(v) ==> {
                &&& self.payments_map().dom().len() > 0
                &&& v@.len() == self.payments_map().dom().len()
                &&& forall|i: int| 0 <= i < v@.len() ==> self.payments_map().dom().contains((#[trigger] v@[i]).id) && v@[i]@ == self.payment_at(v@[i].id)
                &&& forall|k: u64| #[trigger] self.payments_map().dom().contains(k) ==> exists|x: int| 0 <= x < v@.len() && (#[trigger] v@[x]).id == k
                &&& forall|i: int, j: int| 0 <= i < j < v@.len() ==> (#[trigger] v@[i]).id < (#[trigger] v@[j]).id
            }),
            (r matches Err(m) ==> self.payments_map().dom().len() == 0 && (m matches Message::NotFound(s) && s@ == no_payments_text())),
    {
        let es = self.payments.entries();
        if es.len() == 0 {
            return Err(not_found_msg("No payments found"));
        }
        let mut v: Vec<Payment> = Vec::new();
        let mut i: usize = 0;
        while i < es.len()
            invariant
                i <= es@.len(),
                v@.len() == i,
                forall|j: int| 0 <= j < i ==> (#[trigger] v@[j]).id == es@[j].0 && v@[j]@ == self.payment_at(es@[j].0),
            decreases es@.len() - i,
        {
            let key = es[i].0;
            proof {
                assert(self.payments_map().dom().contains(es@[i as int].0));
                assert(payment_entry_ok(self.payments_map(), key, self.counter_val()));
            }
            match decode_payment(&es[i].1) {
                Some(d) => {
                    proof {
                        assert(d@ == self.payment_at(key));
                    }
                    v.push(d);
                },
                None => {
                    proof {
                        assert(false);
                    }
                    unreached()
                },
            }
            i = i + 1;
        }
        proof {
            assert forall|k: u64| #[trigger] self.payments_map().dom().contains(k) implies exists|x: int| 0 <= x < v@.len() && (#[trigger] v@[x]).id == k by {
                let j = choose|j: int| 0 <= j < es@.len() && (#[trigger] es@[j]).0 == k;
                assert(0 <= j < v@.len() && v@[j].id == k);
            }
            assert forall|i2: int, j2: int| 0 <= i2 < j2 < v@.len() implies (#[trigger] v@[i2]).id < (#[trigger] v@[j2]).id by {
                assert(v@[i2].id == es@[i2].0);
                assert(v@[j2].id == es@[j2].0);
            }
        }
        Ok(v)
    }

    /// Creates a medical record: validates the payload, checks every
    /// referenced record exists, assigns the next identifier, stores the
    /// encoded record under it, and returns the stored copy.
    pub fn create_medical_record(&mut self, payload: CreateMedicalRecordPayload, now: u64) -> (r: Result<MedicalRecord, Message>)
        requires
            old(self).consistent(),
            old(self).counter_val() < u64::MAX,
        ensures
            final(self).consistent(),
            (r matches Ok(d) ==> {
                &&& old(self).patients_map().dom().contains(payload.patient_id)
                &&& old(self).doctors_map().dom().contains(payload.doctor_id)
                &&& d.id == old(self).counter_val()
                &&& d.patient_id == payload.patient_id
                &&& d.doctor_id == payload.doctor_id
                &&& d.prescriptions == payload.prescriptions
                &&& d.lab_results == payload.lab_results
                &&& d.diagnosis == payload.diagnosis
                &&& d.treatment == payload.treatment
                &&& d.created_at == now
                &&& final(self).counter_val() == old(self).counter_val() + 1
                &&& final(self).medical_records_map() == old(self).medical_records_map().insert(d.id, enc_medical_record(d@))
                &&& same_maps_except_medical_records(*old(self), *final(self))
            }),
            (r matches Err(m) ==> {
                &&& *final(self) == *old(self)
                &&& ({
                    if !old(self).patients_map().dom().contains(payload.patient_id) {
                        (m matches Message::NotFound(s) && s@ == patient_not_found_text())
                    } else if !old(self).doctors_map().dom().contains(payload.doctor_id) {
                        (m matches Message::NotFound(s) && s@ == doctor_not_found_text())
                    } else {
                        false
                    }
                })
            }),
    {
        if !self.patients.contains_key(payload.patient_id) {
            return Err(not_found_msg("Patient not found"));
        }
        if !self.doctors.contains_key(payload.doctor_id) {
            return Err(not_found_msg("Doctor not found"));
        }
        let id = self.next_id();
        let d = MedicalRecord { id, patient_id: payload.patient_id, doctor_id: payload.doctor_id, prescriptions: payload.prescriptions, lab_results: payload.lab_results, diagnosis: payload.diagnosis, treatment: payload.treatment, created_at: now };
        let bytes = encode_medical_record(&d);
        self.medical_records.insert(id, bytes);
        proof {
            lemma_medical_records_ok_insert(
                old(self).medical_records_map(),
                old(self).counter_val(),
                self.counter_val(),
                id,
                d@,
            );
        }
        Ok(d)
    }

    /// Looks one medical record up by identifier.
    pub fn get_medical_record_by_id(&self, id: u64) -> (r: Result<MedicalRecord, Message>)
        requires
            self.consistent(),
        ensures
            (r matches Ok(d) ==> self.medical_records_map().dom().contains(id) && d@ == self.medical_record_at(id)),
            (r matches Err(m) ==> !self.medical_records_map().dom().contains(id) && (m matches Message::NotFound(s) && s@ == medical_record_not_found_text())),
    {
        match self.medical_records.get(id) {
            Some(bytes) => {
                proof {
                    assert(medical_record_entry_ok(self.medical_records_map(), id, self.counter_val()));
                }
                match decode_medical_record(&bytes) {
                    Some(d) => Ok(d),
                    None => {
                        proof {
                            assert(false);
                        }
                        unreached()
                    },
                }
            },
            None => Err(not_found_msg("Medical record not found")),
        }
    }

    /// Returns every stored medical record, in ascending identifier order;
    /// an empty store is reported as not found, by convention.
    #[verifier::rlimit(50)]
    #[verifier::spinoff_prover]
    pub fn get_all_medical_records(&self) -> (r: Result<Vec<MedicalRecord>, Message>)
        requires
            self.consistent(),
        ensures
            (r matches Ok(v) ==> {
                &&& self.medical_records_map().dom().len() > 0
                &&& v@.len() == self.medical_records_map().dom().len()
                &&& forall|i: int| 0 <= i < v@.len() ==> self.medical_records_map().dom().contains((#[trigger] v@[i]).id) && v@[i]@ == self.medical_record_at(v@[i].id)
                &&& forall|k: u64| #[trigger] self.medical_records_map().dom().contains(k) ==> exists|x: int| 0 <= x < v@.len() && (#[trigger] v@[x]).id == k
                &&& forall|i: int, j: int| 0 <= i < j < v@.len() ==> (#[trigger] v@[i]).id < (#[trigger] v@[j]).id
            }),
            (r matches Err(m) ==> self.medical_records_map().dom().len() == 0 && (m matches Message::NotFound(s) && s@ == no_medical_records_text())),
    {
        let es = self.medical_records.entries();
        if es.len() == 0 {
            return Err(not_found_msg("No medical records found"));
        }
        let mut v: Vec<MedicalRecord> = Vec::new();
        let mut i: usize = 0;
        while i < es.len()
            invariant
                i <= es@.len(),
                v@.len() == i,
                forall|j: int| 0 <= j < i ==> (#[trigger] v@[j]).id == es@[j].0 && v@[j]@ == self.medical_record_at(es@[j].0),
            decreases es@.len() - i,
        {
            let key = es[i].0;
            proof {
                assert(self.medical_records_map().dom().contains(es@[i as int].0));
                assert(medical_record_entry_ok(self.medical_records_map(), key, self.counter_val()));
            }
            match decode_medical_record(&es[i].1) {
                Some(d) => {
                    proof {
                        assert(d@ == self.medical_record_at(key));
                    }
                    v.push(d);
                },
                None => {
                    proof {
                        assert(false);
                    }
                    unreached()
                },
            }
            i = i + 1;
        }
        proof {
            assert forall|k: u64| #[trigger] self.medical_records_map().dom().contains(k) implies exists|x: int| 0 <= x < v@.len() && (#[trigger] v@[x]).id == k by {
                let j = choose|j: int| 0 <= j < es@.len() && (#[trigger] es@[j]).0 == k;
                assert(0 <= j < v@.len() && v@[j].id == k);
            }
            assert forall|i2: int, j2: int| 0 <= i2 < j2 < v@.len() implies (#[trigger] v@[i2]).id < (#[trigger] v@[j2]).id by {
                assert(v@[i2].id == es@[i2].0);
                assert(v@[j2].id == es@[j2].0);
            }
        }
        Ok(v)
    }

    /// Returns every stored doctor with the given department id, in
    /// ascending identifier order; an empty result is reported as not
    /// found, by convention.
    #[verifier::rlimit(50)]
    #[verifier::spinoff_prover]
    pub fn get_doctors_by_department_id(&self, department_id: u64) -> (r: Result<Vec<Doctor>, Message>)
        requires
            self.consistent(),
        ensures
            (r matches Ok(v) ==> {
                &&& v@.len() > 0
                &&& forall|i: int| 0 <= i < v@.len() ==> self.doctors_map().dom().contains((#[trigger] v@[i]).id) && v@[i]@ == self.doctor_at(v@[i].id) && self.doctor_at(v@[i].id).department_id == department_id
                &&& forall|k: u64| #[trigger] self.doctors_map().dom().contains(k) && self.doctor_at(k).department_id == department_id ==> exists|x: int| 0 <= x < v@.len() && (#[trigger] v@[x]).id == k
                &&& forall|i: int, j: int| 0 <= i < j < v@.len() ==> (#[trigger] v@[i]).id < (#[trigger] v@[j]).id
            }),
            (r matches Err(m) ==> (forall|k: u64| #[trigger] self.doctors_map().dom().contains(k) ==> !(self.doctor_at(k).department_id == department_id)) && (m matches Message::NotFound(s) && s@ == no_doctors_text())),
    {
        let es = self.doctors.entries();
        let mut v: Vec<Doctor> = Vec::new();
        let mut i: usize = 0;
        while i < es.len()
            invariant
                i <= es@.len(),
                forall|x: int| 0 <= x < v@.len() ==> self.doctors_map().dom().contains((#[trigger] v@[x]).id) && v@[x]@ == self.doctor_at(v@[x].id) && self.doctor_at(v@[x].id).department_id == department_id,
                forall|j: int| 0 <= j < i && self.doctor_at((#[trigger] es@[j]).0).department_id == department_id ==> exists|x: int| 0 <= x < v@.len() && (#[trigger] v@[x]).id == es@[j].0,
                i < es@.len() ==> (forall|x: int| 0 <= x < v@.len() ==> (#[trigger] v@[x]).id < es@[i as int].0),
                forall|x: int, y: int| 0 <= x < y < v@.len() ==> (#[trigger] v@[x]).id < (#[trigger] v@[y]).id,
            decreases es@.len() - i,
        {
            let key = es[i].0;
            proof {
                assert(self.doctors_map().dom().contains(es@[i as int].0));
                assert(doctor_entry_ok(self.doctors_map(), key, self.counter_val()));
            }
            let ghost v0 = v@;
            match decode_doctor(&es[i].1) {
                Some(d) => {
                    proof {
                        assert(d@ == self.doctor_at(key));
                    }
                    if d.department_id == department_id {
                        v.push(d);
                        proof {
                            assert forall|j: int| 0 <= j <= i && self.doctor_at((#[trigger] es@[j]).0).department_id == department_id implies exists|x: int| 0 <= x < v@.len() && (#[trigger] v@[x]).id == es@[j].0 by {
                                if j == i {
                                    assert(v@[v@.len() - 1].id == es@[i as int].0);
                                } else {
                                    let x = choose|x: int| 0 <= x < v0.len() && (#[trigger] v0[x]).id == es@[j].0;
                                    assert(v@[x].id == es@[j].0);
                                }
                            }
                        }
                    } else {
                        proof {
                            assert(!(self.doctor_at(es@[i as int].0).department_id == department_id));
                        }
                    }
                },
                None => {
                    proof {
                        assert(false);
                    }
                    unreached()
                },
            }
            proof {
                if i as int + 1 < es@.len() {
                    assert(es@[i as int].0 < es@[i as int + 1].0);
                }
            }
            i = i + 1;
        }
        if v.len() == 0 {
            proof {
                assert forall|k: u64| #[trigger] self.doctors_map().dom().contains(k) implies !(self.doctor_at(k).department_id == department_id) by {
                    let j = choose|j: int| 0 <= j < es@.len() && (#[trigger] es@[j]).0 == k;
                    assert(es@[j].0 == k);
                    if self.doctor_at(k).department_id == department_id {
                        assert(exists|x: int| 0 <= x < v@.len() && (#[trigger] v@[x]).id == k);
                        assert(false);
                    }
                }
            }
            return Err(not_found_msg("No doctors found"));
        }
        proof {
            assert forall|k: u64| #[trigger] self.doctors_map().dom().contains(k) && self.doctor_at(k).department_id == department_id implies exists|x: int| 0 <= x < v@.len() && (#[trigger] v@[x]).id == k by {
                let j = choose|j: int| 0 <= j < es@.len() && (#[trigger] es@[j]).0 == k;
                assert(es@[j].0 == k);
            }
        }
        Ok(v)
    }

    /// Returns every stored department whose name contains the given text, in
    /// ascending identifier order; an empty result is reported as not
    /// found, by convention.
    #[verifier::rlimit(50)]
    #[verifier::spinoff_prover]
    pub fn search_departments_by_name(&self, name: String) -> (r: Result<Vec<Department>, Message>)
        requires
            self.consistent(),
        ensures
            (r matches Ok(v) ==> {
                &&& v@.len() > 0
                &&& forall|i: int| 0 <= i < v@.len() ==> self.departments_map().dom().contains((#[trigger] v@[i]).id) && v@[i]@ == self.department_at(v@[i].id) && is_substring(name@, self.department_at(v@[i].id).name)
                &&& forall|k: u64| #[trigger] self.departments_map().dom().contains(k) && is_substring(name@, self.department_at(k).name) ==> exists|x: int| 0 <= x < v@.len() && (#[trigger] v@[x]).id == k
                &&& forall|i: int, j: int| 0 <= i < j < v@.len() ==> (#[trigger] v@[i]).id < (#[trigger] v@[j]).id
            }),
            (r matches Err(m) ==> (forall|k: u64| #[trigger] self.departments_map().dom().contains(k) ==> !(is_substring(name@, self.department_at(k).name))) && (m matches Message::NotFound(s) && s@ == no_departments_text())),
    {
        let es = self.departments.entries();
        let mut v: Vec<Department> = Vec::new();
        let mut i: usize = 0;
        while i < es.len()
            invariant
                i <= es@.len(),
                forall|x: int| 0 <= x < v@.len() ==> self.departments_map().dom().contains((#[trigger] v@[x]).id) && v@[x]@ == self.department_at(v@[x].id) && is_substring(name@, self.department_at(v@[x].id).name),
                forall|j: int| 0 <= j < i && is_substring(name@, self.department_at((#[trigger] es@[j]).0).name) ==> exists|x: int| 0 <= x < v@.len() && (#[trigger] v@[x]).id == es@[j].0,
                i < es@.len() ==> (forall|x: int| 0 <= x < v@.len() ==> (#[trigger] v@[x]).id < es@[i as int].0),
                forall|x: int, y: int| 0 <= x < y < v@.len() ==> (#[trigger] v@[x]).id < (#[trigger] v@[y]).id,
            decreases es@.len() - i,
        {
            let key = es[i].0;
            proof {
                assert(self.departments_map().dom().contains(es@[i as int].0));
                assert(department_entry_ok(self.departments_map(), key, self.counter_val()));
            }
            let ghost v0 = v@;
            match decode_department(&es[i].1) {
                Some(d) => {
                    proof {
                        assert(d@ == self.department_at(key));
                    }
                    if str_contains(&d.name, &name) {
                        v.push(d);
                        proof {
                            assert forall|j: int| 0 <= j <= i && is_substring(name@, self.department_at((#[trigger] es@[j]).0).name) implies exists|x: int| 0 <= x < v@.len() && (#[trigger] v@[x]).id == es@[j].0 by {
                                if j == i {
                                    assert(v@[v@.len() - 1].id == es@[i as int].0);
                                } else {
                                    let x = choose|x: int| 0 <= x < v0.len() && (#[trigger] v0[x]).id == es@[j].0;
                                    assert(v@[x].id == es@[j].0);
                                }
                            }
                        }
                    } else {
                        proof {
                            assert(!(is_substring(name@, self.department_at(es@[i as int].0).name)));
                        }
                    }
                },
                None => {
                    proof {
                        assert(false);
                    }
                    unreached()
                },
            }
            proof {
                if i as int + 1 < es@.len() {
                    assert(es@[i as int].0 < es@[i as int + 1].0);
                }
            }
            i = i + 1;
        }
        if v.len() == 0 {
            proof {
                assert forall|k: u64| #[trigger] self.departments_map().dom().contains(k) implies !(is_substring(name@, self.department_at(k).name)) by {
                    let j = choose|j: int| 0 <= j < es@.len() && (#[trigger] es@[j]).0 == k;
                    assert(es@[j].0 == k);
                    if is_substring(name@, self.department_at(k).name) {
                        assert(exists|x: int| 0 <= x < v@.len() && (#[trigger] v@[x]).id == k);
                        assert(false);
                    }
                }
            }
            return Err(not_found_msg("No departments found"));
        }
        proof {
            assert forall|k: u64| #[trigger] self.departments_map().dom().contains(k) && is_substring(name@, self.department_at(k).name) implies exists|x: int| 0 <= x < v@.len() && (#[trigger] v@[x]).id == k by {
                let j = choose|j: int| 0 <= j < es@.len() && (#[trigger] es@[j]).0 == k;
                assert(es@[j].0 == k);
            }
        }
        Ok(v)
    }

    /// Returns every stored doctor whose name contains the given text, in
    /// ascending identifier order; an empty result is reported as not
    /// found, by convention.
    #[verifier::rlimit(50)]
    #[verifier::spinoff_prover]
    pub fn search_doctors_by_name(&self, name: String) -> (r: Result<Vec<Doctor>, Message>)
        requires
            self.consistent(),
        ensures
            (r matches Ok(v) ==> {
                &&& v@.len() > 0
                &&& forall|i: int| 0 <= i < v@.len() ==> self.doctors_map().dom().contains((#[trigger] v@[i]).id) && v@[i]@ == self.doctor_at(v@[i].id) && is_substring(name@, self.doctor_at(v@[i].id).name)
                &&& forall|k: u64| #[trigger] self.doctors_map().dom().contains(k) && is_substring(name@, self.doctor_at(k).name) ==> exists|x: int| 0 <= x < v@.len() && (#[trigger] v@[x]).id == k
                &&& forall|i: int, j: int| 0 <= i < j < v@.len() ==> (#[trigger] v@[i]).id < (#[trigger] v@[j]).id
            }),
            (r matches Err(m) ==> (forall|k: u64| #[trigger] self.doctors_map().dom().contains(k) ==> !(is_substring(name@, self.doctor_at(k).name))) && (m matches Message::NotFound(s) && s@ == no_doctors_text())),
    {
        let es = self.doctors.entries();
        let mut v: Vec<Doctor> = Vec::new();
        let mut i: usize = 0;
        while i < es.len()
            invariant
                i <= es@.len(),
                forall|x: int| 0 <= x < v@.len() ==> self.doctors_map().dom().contains((#[trigger] v@[x]).id) && v@[x]@ == self.doctor_at(v@[x].id) && is_substring(name@, self.doctor_at(v@[x].id).name),
                forall|j: int| 0 <= j < i && is_substring(name@, self.doctor_at((#[trigger] es@[j]).0).name) ==> exists|x: int| 0 <= x < v@.len() && (#[trigger] v@[x]).id == es@[j].0,
                i < es@.len() ==> (forall|x: int| 0 <= x < v@.len() ==> (#[trigger] v@[x]).id < es@[i as int].0),
                forall|x: int, y: int| 0 <= x < y < v@.len() ==> (#[trigger] v@[x]).id < (#[trigger] v@[y]).id,
            decreases es@.len() - i,
        {
            let key = es[i].0;
            proof {
                assert(self.doctors_map().dom().contains(es@[i as int].0));
                assert(doctor_entry_ok(self.doctors_map(), key, self.counter_val()));
            }
            let ghost v0 = v@;
            match decode_doctor(&es[i].1) {
                Some(d) => {
                    proof {
                        assert(d@ == self.doctor_at(key));
                    }
                    if str_contains(&d.name, &name) {
                        v.push(d);
                        proof {
                            assert forall|j: int| 0 <= j <= i && is_substring(name@, self.doctor_at((#[trigger] es@[j]).0).name) implies exists|x: int| 0 <= x < v@.len() && (#[trigger] v@[x]).id == es@[j].0 by {
                                if j == i {
                                    assert(v@[v@.len() - 1].id == es@[i as int].0);
                                } else {
                                    let x = choose|x: int| 0 <= x < v0.len() && (#[trigger] v0[x]).id == es@[j].0;
                                    assert(v@[x].id == es@[j].0);
                                }
                            }
                        }
                    } else {
                        proof {
                            assert(!(is_substring(name@, self.doctor_at(es@[i as int].0).name)));
                        }
                    }
                },
                None => {
                    proof {
                        assert(false);
                    }
                    unreached()
                },
            }
            proof {
                if i as int + 1 < es@.len() {
                    assert(es@[i as int].0 < es@[i as int + 1].0);
                }
            }
            i = i + 1;
        }
        if v.len() == 0 {
            proof {
                assert forall|k: u64| #[trigger] self.doctors_map().dom().contains(k) implies !(is_substring(name@, self.doctor_at(k).name)) by {
                    let j = choose|j: int| 0 <= j < es@.len() && (#[trigger] es@[j]).0 == k;
                    assert(es@[j].0 == k);
                    if is_substring(name@, self.doctor_at(k).name) {
                        assert(exists|x: int| 0 <= x < v@.len() && (#[trigger] v@[x]).id == k);
                        assert(false);
                    }
                }
            }
            return Err(not_found_msg("No doctors found"));
        }
        proof {
            assert forall|k: u64| #[trigger] self.doctors_map().dom().contains(k) && is_substring(name@, self.doctor_at(k).name) implies exists|x: int| 0 <= x < v@.len() && (#[trigger] v@[x]).id == k by {
                let j = choose|j: int| 0 <= j < es@.len() && (#[trigger] es@[j]).0 == k;
                assert(es@[j].0 == k);
            }
        }
        Ok(v)
    }

    /// Returns every stored consultation with the given patient id, in
    /// ascending identifier order; an empty result is reported as not
    /// found, by convention.
    #[verifier::rlimit(50)]
    #[verifier::spinoff_prover]
    pub fn get_consultations_by_patient_id(&self, patient_id: u64) -> (r: Result<Vec<Consultation>, Message>)
        requires
            self.consistent(),
        ensures
            (r matches Ok(v) ==> {
                &&& v@.len() > 0
                &&& forall|i: int| 0 <= i < v@.len() ==> self.consultations_map().dom().contains((#[trigger] v@[i]).id) && v@[i]@ == self.consultation_at(v@[i].id) && self.consultation_at(v@[i].id).patient_id == patient_id
                &&& forall|k: u64| #[trigger] self.consultations_map().dom().contains(k) && self.consultation_at(k).patient_id == patient_id ==> exists|x: int| 0 <= x < v@.len() && (#[trigger] v@[x]).id == k
                &&& forall|i: int, j: int| 0 <= i < j < v@.len() ==> (#[trigger] v@[i]).id < (#[trigger] v@[j]).id
            }),
            (r matches Err(m) ==> (forall|k: u64| #[trigger] self.consultations_map().dom().contains(k) ==> !(self.consultation_at(k).patient_id == patient_id)) && (m matches Message::NotFound(s) && s@ == no_consultations_text())),
    {
        let es = self.consultations.entries();
        let mut v: Vec<Consultation> = Vec::new();
        let mut i: usize = 0;
        while i < es.len()
            invariant
                i <= es@.len(),
                forall|x: int| 0 <= x < v@.len() ==> self.consultations_map().dom().contains((#[trigger] v@[x]).id) && v@[x]@ == self.consultation_at(v@[x].id) && self.consultation_at(v@[x].id).patient_id == patient_id,
                forall|j: int| 0 <= j < i && self.consultation_at((#[trigger] es@[j]).0).patient_id == patient_id ==> exists|x: int| 0 <= x < v@.len() && (#[trigger] v@[x]).id == es@[j].0,
                i < es@.len() ==> (forall|x: int| 0 <= x < v@.len() ==> (#[trigger] v@[x]).id < es@[i as int].0),
                forall|x: int, y: int| 0 <= x < y < v@.len() ==> (#[trigger] v@[x]).id < (#[trigger] v@[y]).id,
            decreases es@.len() - i,
        {
            let key = es[i].0;
            proof {
                assert(self.consultations_map().dom().contains(es@[i as int].0));
                assert(consultation_entry_ok(self.consultations_map(), key, self.counter_val()));
            }
            let ghost v0 = v@;
            match decode_consultation(&es[i].1) {
                Some(d) => {
                    proof {
                        assert(d@ == self.consultation_at(key));
                    }
                    if d.patient_id == patient_id {
                        v.push(d);
                        proof {
                            assert forall|j: int| 0 <= j <= i && self.consultation_at((#[trigger] es@[j]).0).patient_id == patient_id implies exists|x: int| 0 <= x < v@.len() && (#[trigger] v@[x]).id == es@[j].0 by {
                                if j == i {
                                    assert(v@[v@.len() - 1].id == es@[i as int].0);
                                } else {
                                    let x = choose|x: int| 0 <= x < v0.len() && (#[trigger] v0[x]).id == es@[j].0;
                                    assert(v@[x].id == es@[j].0);
                                }
                            }
                        }
                    } else {
                        proof {
                            assert(!(self.consultation_at(es@[i as int].0).patient_id == patient_id));
                        }
                    }
                },
                None => {
                    proof {
                        assert(false);
                    }
                    unreached()
                },
            }
            proof {
                if i as int + 1 < es@.len() {
                    assert(es@[i as int].0 < es@[i as int + 1].0);
                }
            }
            i = i + 1;
        }
        if v.len() == 0 {
            proof {
                assert forall|k: u64| #[trigger] self.consultations_map().dom().contains(k) implies !(self.consultation_at(k).patient_id == patient_id) by {
                    let j = choose|j: int| 0 <= j < es@.len() && (#[trigger] es@[j]).0 == k;
                    assert(es@[j].0 == k);
                    if self.consultation_at(k).patient_id == patient_id {
                        assert(exists|x: int| 0 <= x < v@.len() && (#[trigger] v@[x]).id == k);
                        assert(false);
                    }
                }
            }
            return Err(not_found_msg("No consultations found"));
        }
        proof {
            assert forall|k: u64| #[trigger] self.consultations_map().dom().contains(k) && self.consultation_at(k).patient_id == patient_id implies exists|x: int| 0 <= x < v@.len() && (#[trigger] v@[x]).id == k by {
                let j = choose|j: int| 0 <= j < es@.len() && (#[trigger] es@[j]).0 == k;
                assert(es@[j].0 == k);
            }
        }
        Ok(v)
    }

    /// Returns every stored chat with the given patient id, in
    /// ascending identifier order; an empty result is reported as not
    /// found, by convention.
    #[verifier::rlimit(50)]
    #[verifier::spinoff_prover]
    pub fn get_chats_by_patient_id(&self, patient_id: u64) -> (r: Result<Vec<Chat>, Message>)
        requires
            self.consistent(),
        ensures
            (r matches Ok(v) ==> {
                &&& v@.len() > 0
                &&& forall|i: int| 0 <= i < v@.len() ==> self.chats_map().dom().contains((#[trigger] v@[i]).id) && v@[i]@ == self.chat_at(v@[i].id) && self.chat_at(v@[i].id).patient_id == patient_id
                &&& forall|k: u64| #[trigger] self.chats_map().dom().contains(k) && self.chat_at(k).patient_id == patient_id ==> exists|x: int| 0 <= x < v@.len() && (#[trigger] v@[x]).id == k
                &&& forall|i: int, j: int| 0 <= i < j < v@.len() ==> (#[trigger] v@[i]).id < (#[trigger] v@[j]).id
            }),
            (r matches Err(m) ==> (forall|k: u64| #[trigger] self.chats_map().dom().contains(k) ==> !(self.chat_at(k).patient_id == patient_id)) && (m matches Message::NotFound(s) && s@ == no_chats_text())),
    {
        let es = self.chats.entries();
        let mut v: Vec<Chat> = Vec::new();
        let mut i: usize = 0;
        while i < es.len()
            invariant
                i <= es@.len(),
                forall|x: int| 0 <= x < v@.len() ==> self.chats_map().dom().contains((#[trigger] v@[x]).id) && v@[x]@ == self.chat_at(v@[x].id) && self.chat_at(v@[x].id).patient_id == patient_id,
                forall|j: int| 0 <= j < i && self.chat_at((#[trigger] es@[j]).0).patient_id == patient_id ==> exists|x: int| 0 <= x < v@.len() && (#[trigger] v@[x]).id == es@[j].0,
                i < es@.len() ==> (forall|x: int| 0 <= x < v@.len() ==> (#[trigger] v@[x]).id < es@[i as int].0),
                forall|x: int, y: int| 0 <= x < y < v@.len() ==> (#[trigger] v@[x]).id < (#[trigger] v@[y]).id,
            decreases es@.len() - i,
        {
            let key = es[i].0;
            proof {
                assert(self.chats_map().dom().contains(es@[i as int].0));
                assert(chat_entry_ok(self.chats_map(), key, self.counter_val()));
            }
            let ghost v0 = v@;
            match decode_chat(&es[i].1) {
                Some(d) => {
                    proof {
                        assert(d@ == self.chat_at(key));
                    }
                    if d.patient_id == patient_id {
                        v.push(d);
                        proof {
                            assert forall|j: int| 0 <= j <= i && self.chat_at((#[trigger] es@[j]).0).patient_id == patient_id implies exists|x: int| 0 <= x < v@.len() && (#[trigger] v@[x]).id == es@[j].0 by {
                                if j == i {
                                    assert(v@[v@.len() - 1].id == es@[i as int].0);
                                } else {
                                    let x = choose|x: int| 0 <= x < v0.len() && (#[trigger] v0[x]).id == es@[j].0;
                                    assert(v@[x].id == es@[j].0);
                                }
                            }
                        }
                    } else {
                        proof {
                            assert(!(self.chat_at(es@[i as int].0).patient_id == patient_id));
                        }
                    }
                },
                None => {
                    proof {
                        assert(false);
                    }
                    unreached()
                },
            }
            proof {
                if i as int + 1 < es@.len() {
                    assert(es@[i as int].0 < es@[i as int + 1].0);
                }
            }
            i = i + 1;
        }
        if v.len() == 0 {
            proof {
                assert forall|k: u64| #[trigger] self.chats_map().dom().contains(k) implies !(self.chat_at(k).patient_id == patient_id) by {
                    let j = choose|j: int| 0 <= j < es@.len() && (#[trigger] es@[j]).0 == k;
                    assert(es@[j].0 == k);
                    if self.chat_at(k).patient_id == patient_id {
                        assert(exists|x: int| 0 <= x < v@.len() && (#[trigger] v@[x]).id == k);
                        assert(false);
                    }
                }
            }
            return Err(not_found_msg("No chats found"));
        }
        proof {
            assert forall|k: u64| #[trigger] self.chats_map().dom().contains(k) && self.chat_at(k).patient_id == patient_id implies exists|x: int| 0 <= x < v@.len() && (#[trigger] v@[x]).id == k by {
                let j = choose|j: int| 0 <= j < es@.len() && (#[trigger] es@[j]).0 == k;
                assert(es@[j].0 == k);
            }
        }
        Ok(v)
    }

    /// Returns every stored chat with the given doctor id, in
    /// ascending identifier order; an empty result is reported as not
    /// found, by convention.
    #[verifier::rlimit(50)]
    #[verifier::spinoff_prover]
    pub fn get_chats_by_doctor_id(&self, doctor_id: u64) -> (r: Result<Vec<Chat>, Message>)
        requires
            self.consistent(),
        ensures
            (r matches Ok(v) ==> {
                &&& v@.len() > 0
                &&& forall|i: int| 0 <= i < v@.len() ==> self.chats_map().dom().contains((#[trigger] v@[i]).id) && v@[i]@ == self.chat_at(v@[i].id) && self.chat_at(v@[i].id).doctor_id == doctor_id
                &&& forall|k: u64| #[trigger] self.chats_map().dom().contains(k) && self.chat_at(k).doctor_id == doctor_id ==> exists|x: int| 0 <= x < v@.len() && (#[trigger] v@[x]).id == k
                &&& forall|i: int, j: int| 0 <= i < j < v@.len() ==> (#[trigger] v@[i]).id < (#[trigger] v@[j]).id
            }),
            (r matches Err(m) ==> (forall|k: u64| #[trigger] self.chats_map().dom().contains(k) ==> !(self.chat_at(k).doctor_id == doctor_id)) && (m matches Message::NotFound(s) && s@ == no_chats_text())),
    {
        let es = self.chats.entries();
        let mut v: Vec<Chat> = Vec::new();
        let mut i: usize = 0;
        while i < es.len()
            invariant
                i <= es@.len(),
                forall|x: int| 0 <= x < v@.len() ==> self.chats_map().dom().contains((#[trigger] v@[x]).id) && v@[x]@ == self.chat_at(v@[x].id) && self.chat_at(v@[x].id).doctor_id == doctor_id,
                forall|j: int| 0 <= j < i && self.chat_at((#[trigger] es@[j]).0).doctor_id == doctor_id ==> exists|x: int| 0 <= x < v@.len() && (#[trigger] v@[x]).id == es@[j].0,
                i < es@.len() ==> (forall|x: int| 0 <= x < v@.len() ==> (#[trigger] v@[x]).id < es@[i as int].0),
                forall|x: int, y: int| 0 <= x < y < v@.len() ==> (#[trigger] v@[x]).id < (#[trigger] v@[y]).id,
            decreases es@.len() - i,
        {
            let key = es[i].0;
            proof {
                assert(self.chats_map().dom().contains(es@[i as int].0));
                assert(chat_entry_ok(self.chats_map(), key, self.counter_val()));
            }
            let ghost v0 = v@;
            match decode_chat(&es[i].1) {
                Some(d) => {
                    proof {
                        assert(d@ == self.chat_at(key));
                    }
                    if d.doctor_id == doctor_id {
                        v.push(d);
                        proof {
                            assert forall|j: int| 0 <= j <= i && self.chat_at((#[trigger] es@[j]).0).doctor_id == doctor_id implies exists|x: int| 0 <= x < v@.len() && (#[trigger] v@[x]).id == es@[j].0 by {
                                if j == i {
                                    assert(v@[v@.len() - 1].id == es@[i as int].0);
                                } else {
                                    let x = choose|x: int| 0 <= x < v0.len() && (#[trigger] v0[x]).id == es@[j].0;
                                    assert(v@[x].id == es@[j].0);
                                }
                            }
                        }
                    } else {
                        proof {
                            assert(!(self.chat_at(es@[i as int].0).doctor_id == doctor_id));
                        }
                    }
                },
                None => {
                    proof {
                        assert(false);
                    }
                    unreached()
                },
            }
            proof {
                if i as int + 1 < es@.len() {
                    assert(es@[i as int].0 < es@[i as int + 1].0);
                }
            }
            i = i + 1;
        }
        if v.len() == 0 {
            proof {
                assert forall|k: u64| #[trigger] self.chats_map().dom().contains(k) implies !(self.chat_at(k).doctor_id == doctor_id) by {
                    let j = choose|j: int| 0 <= j < es@.len() && (#[trigger] es@[j]).0 == k;
                    assert(es@[j].0 == k);
                    if self.chat_at(k).doctor_id == doctor_id {
                        assert(exists|x: int| 0 <= x < v@.len() && (#[trigger] v@[x]).id == k);
                        assert(false);
                    }
                }
            }
            return Err(not_found_msg("No chats found"));
        }
        proof {
            assert forall|k: u64| #[trigger] self.chats_map().dom().contains(k) && self.chat_at(k).doctor_id == doctor_id implies exists|x: int| 0 <= x < v@.len() && (#[trigger] v@[x]).id == k by {
                let j = choose|j: int| 0 <= j < es@.len() && (#[trigger] es@[j]).0 == k;
                assert(es@[j].0 == k);
            }
        }
        Ok(v)
    }

    /// Returns every stored appointment with the given patient id, in
    /// ascending identifier order; an empty result is reported as not
    /// found, by convention.
    #[verifier::rlimit(50)]
    #[verifier::spinoff_prover]
    pub fn get_appointments_by_patient_id(&self, patient_id: u64) -> (r: Result<Vec<Appointment>, Message>)
        requires
            self.consistent(),
        ensures
            (r matches Ok(v) ==> {
                &&& v@.len() > 0
                &&& forall|i: int| 0 <= i < v@.len() ==> self.appointments_map().dom().contains((#[trigger] v@[i]).id) && v@[i]@ == self.appointment_at(v@[i].id) && self.appointment_at(v@[i].id).patient_id == patient_id
                &&& forall|k: u64| #[trigger] self.appointments_map().dom().contains(k) && self.appointment_at(k).patient_id == patient_id ==> exists|x: int| 0 <= x < v@.len() && (#[trigger] v@[x]).id == k
                &&& forall|i: int, j: int| 0 <= i < j < v@.len() ==> (#[trigger] v@[i]).id < (#[trigger] v@[j]).id
            }),
            (r matches Err(m) ==> (forall|k: u64| #[trigger] self.appointments_map().dom().contains(k) ==> !(self.appointment_at(k).patient_id == patient_id)) && (m matches Message::NotFound(s) && s@ == no_appointments_text())),
    {
        let es = self.appointments.entries();
        let mut v: Vec<Appointment> = Vec::new();
        let mut i: usize = 0;
        while i < es.len()
            invariant
                i <= es@.len(),
                forall|x: int| 0 <= x < v@.len() ==> self.appointments_map().dom().contains((#[trigger] v@[x]).id) && v@[x]@ == self.appointment_at(v@[x].id) && self.appointment_at(v@[x].id).patient_id == patient_id,
                forall|j: int| 0 <= j < i && self.appointment_at((#[trigger] es@[j]).0).patient_id == patient_id ==> exists|x: int| 0 <= x < v@.len() && (#[trigger] v@[x]).id == es@[j].0,
                i < es@.len() ==> (forall|x: int| 0 <= x < v@.len() ==> (#[trigger] v@[x]).id < es@[i as int].0),
                forall|x: int, y: int| 0 <= x < y < v@.len() ==> (#[trigger] v@[x]).id < (#[trigger] v@[y]).id,
            decreases es@.len() - i,
        {
            let key = es[i].0;
            proof {
                assert(self.appointments_map().dom().contains(es@[i as int].0));
                assert(appointment_entry_ok(self.appointments_map(), key, self.counter_val()));
            }
            let ghost v0 = v@;
            match decode_appointment(&es[i].1) {
                Some(d) => {
                    proof {
                        assert(d@ == self.appointment_at(key));
                    }
                    if d.patient_id == patient_id {
                        v.push(d);
                        proof {
                            assert forall|j: int| 0 <= j <= i && self.appointment_at((#[trigger] es@[j]).0).patient_id == patient_id implies exists|x: int| 0 <= x < v@.len() && (#[trigger] v@[x]).id == es@[j].0 by {
                                if j == i {
                                    assert(v@[v@.len() - 1].id == es@[i as int].0);
                                } else {
                                    let x = choose|x: int| 0 <= x < v0.len() && (#[trigger] v0[x]).id == es@[j].0;
                                    assert(v@[x].id == es@[j].0);
                                }
                            }
                        }
                    } else {
                        proof {
                            assert(!(self.appointment_at(es@[i as int].0).patient_id == patient_id));
                        }
                    }
                },
                None => {
                    proof {
                        assert(false);
                    }
                    unreached()
                },
            }
            proof {
                if i as int + 1 < es@.len() {
                    assert(es@[i as int].0 < es@[i as int + 1].0);
                }
            }
            i = i + 1;
        }
        if v.len() == 0 {
            proof {
                assert forall|k: u64| #[trigger] self.appointments_map().dom().contains(k) implies !(self.appointment_at(k).patient_id == patient_id) by {
                    let j = choose|j: int| 0 <= j < es@.len() && (#[trigger] es@[j]).0 == k;
                    assert(es@[j].0 == k);
                    if self.appointment_at(k).patient_id == patient_id {
                        assert(exists|x: int| 0 <= x < v@.len() && (#[trigger] v@[x]).id == k);
                        assert(false);
                    }
                }
            }
            return Err(not_found_msg("No appointments found"));
        }
        proof {
            assert forall|k: u64| #[trigger] self.appointments_map().dom().contains(k) && self.appointment_at(k).patient_id == patient_id implies exists|x: int| 0 <= x < v@.len() && (#[trigger] v@[x]).id == k by {
                let j = choose|j: int| 0 <= j < es@.len() && (#[trigger] es@[j]).0 == k;
                assert(es@[j].0 == k);
            }
        }
        Ok(v)
    }

    /// Returns every stored appointment with the given doctor id, in
    /// ascending identifier order; an empty result is reported as not
    /// found, by convention.
    #[verifier::rlimit(50)]
    #[verifier::spinoff_prover]
    pub fn get_appointments_by_doctor_id(&self, doctor_id: u64) -> (r: Result<Vec<Appointment>, Message>)
        requires
            self.consistent(),
        ensures
            (r matches Ok(v) ==> {
                &&& v@.len() > 0
                &&& forall|i: int| 0 <= i < v@.len() ==> self.appointments_map().dom().contains((#[trigger] v@[i]).id) && v@[i]@ == self.appointment_at(v@[i].id) && self.appointment_at(v@[i].id).doctor_id == doctor_id
                &&& forall|k: u64| #[trigger] self.appointments_map().dom().contains(k) && self.appointment_at(k).doctor_id == doctor_id ==> exists|x: int| 0 <= x < v@.len() && (#[trigger] v@[x]).id == k
                &&& forall|i: int, j: int| 0 <= i < j < v@.len() ==> (#[trigger] v@[i]).id < (#[trigger] v@[j]).id
            }),
            (r matches Err(m) ==> (forall|k: u64| #[trigger] self.appointments_map().dom().contains(k) ==> !(self.appointment_at(k).doctor_id == doctor_id)) && (m matches Message::NotFound(s) && s@ == no_appointments_text())),
    {
        let es = self.appointments.entries();
        let mut v: Vec<Appointment> = Vec::new();
        let mut i: usize = 0;
        while i < es.len()
            invariant
                i <= es@.len(),
                forall|x: int| 0 <= x < v@.len() ==> self.appointments_map().dom().contains((#[trigger] v@[x]).id) && v@[x]@ == self.appointment_at(v@[x].id) && self.appointment_at(v@[x].id).doctor_id == doctor_id,
                forall|j: int| 0 <= j < i && self.appointment_at((#[trigger] es@[j]).0).doctor_id == doctor_id ==> exists|x: int| 0 <= x < v@.len() && (#[trigger] v@[x]).id == es@[j].0,
                i < es@.len() ==> (forall|x: int| 0 <= x < v@.len() ==> (#[trigger] v@[x]).id < es@[i as int].0),
                forall|x: int, y: int| 0 <= x < y < v@.len() ==> (#[trigger] v@[x]).id < (#[trigger] v@[y]).id,
            decreases es@.len() - i,
        {
            let key = es[i].0;
            proof {
                assert(self.appointments_map().dom().contains(es@[i as int].0));
                assert(appointment_entry_ok(self.appointments_map(), key, self.counter_val()));
            }
            let ghost v0 = v@;
            match decode_appointment(&es[i].1) {
                Some(d) => {
                    proof {
                        assert(d@ == self.appointment_at(key));
                    }
                    if d.doctor_id == doctor_id {
                        v.push(d);
                        proof {
                            assert forall|j: int| 0 <= j <= i && self.appointment_at((#[trigger] es@[j]).0).doctor_id == doctor_id implies exists|x: int| 0 <= x < v@.len() && (#[trigger] v@[x]).id == es@[j].0 by {
                                if j == i {
                                    assert(v@[v@.len() - 1].id == es@[i as int].0);
                                } else {
                                    let x = choose|x: int| 0 <= x < v0.len() && (#[trigger] v0[x]).id == es@[j].0;
                                    assert(v@[x].id == es@[j].0);
                                }
                            }
                        }
                    } else {
                        proof {
                            assert(!(self.appointment_at(es@[i as int].0).doctor_id == doctor_id));
                        }
                    }
                },
                None => {
                    proof {
                        assert(false);
                    }
                    unreached()
                },
            }
            proof {
                if i as int + 1 < es@.len() {
                    assert(es@[i as int].0 < es@[i as int + 1].0);
                }
            }
            i = i + 1;
        }
        if v.len() == 0 {
            proof {
                assert forall|k: u64| #[trigger] self.appointments_map().dom().contains(k) implies !(self.appointment_at(k).doctor_id == doctor_id) by {
                    let j = choose|j: int| 0 <= j < es@.len() && (#[trigger] es@[j]).0 == k;
                    assert(es@[j].0 == k);
                    if self.appointment_at(k).doctor_id == doctor_id {
                        assert(exists|x: int| 0 <= x < v@.len() && (#[trigger] v@[x]).id == k);
                        assert(false);
                    }
                }
            }
            return Err(not_found_msg("No appointments found"));
        }
        proof {
            assert forall|k: u64| #[trigger] self.appointments_map().dom().contains(k) && self.appointment_at(k).doctor_id == doctor_id implies exists|x: int| 0 <= x < v@.len() && (#[trigger] v@[x]).id == k by {
                let j = choose|j: int| 0 <= j < es@.len() && (#[trigger] es@[j]).0 == k;
                assert(es@[j].0 == k);
            }
        }
        Ok(v)
    }

    /// Returns every stored prescription with the given patient id, in
    /// ascending identifier order; an empty result is reported as not
    /// found, by convention.
    #[verifier::rlimit(50)]
    #[verifier::spinoff_prover]
    pub fn get_prescriptions_by_patient_id(&self, patient_id: u64) -> (r: Result<Vec<Prescription>, Message>)
        requires
            self.consistent(),
        ensures
            (r matches Ok(v) ==> {
                &&& v@.len() > 0
                &&& forall|i: int| 0 <= i < v@.len() ==> self.prescriptions_map().dom().contains((#[trigger] v@[i]).id) && v@[i]@ == self.prescription_at(v@[i].id) && self.prescription_at(v@[i].id).patient_id == patient_id
                &&& forall|k: u64| #[trigger] self.prescriptions_map().dom().contains(k) && self.prescription_at(k).patient_id == patient_id ==> exists|x: int| 0 <= x < v@.len() && (#[trigger] v@[x]).id == k
                &&& forall|i: int, j: int| 0 <= i < j < v@.len() ==> (#[trigger] v@[i]).id < (#[trigger] v@[j]).id
            }),
            (r matches Err(m) ==> (forall|k: u64| #[trigger] self.prescriptions_map().dom().contains(k) ==> !(self.prescription_at(k).patient_id == patient_id)) && (m matches Message::NotFound(s) && s@ == no_prescriptions_text())),
    {
        let es = self.prescriptions.entries();
        let mut v: Vec<Prescription> = Vec::new();
        let mut i: usize = 0;
        while i < es.len()
            invariant
                i <= es@.len(),
                forall|x: int| 0 <= x < v@.len() ==> self.prescriptions_map().dom().contains((#[trigger] v@[x]).id) && v@[x]@ == self.prescription_at(v@[x].id) && self.prescription_at(v@[x].id).patient_id == patient_id,
                forall|j: int| 0 <= j < i && self.prescription_at((#[trigger] es@[j]).0).patient_id == patient_id ==> exists|x: int| 0 <= x < v@.len() && (#[trigger] v@[x]).id == es@[j].0,
                i < es@.len() ==> (forall|x: int| 0 <= x < v@.len() ==> (#[trigger] v@[x]).id < es@[i as int].0),
                forall|x: int, y: int| 0 <= x < y < v@.len() ==> (#[trigger] v@[x]).id < (#[trigger] v@[y]).id,
            decreases es@.len() - i,
        {
            let key = es[i].0;
            proof {
                assert(self.prescriptions_map().dom().contains(es@[i as int].0));
                assert(prescription_entry_ok(self.prescriptions_map(), key, self.counter_val()));
            }
            let ghost v0 = v@;
            match decode_prescription(&es[i].1) {
                Some(d) => {
                    proof {
                        assert(d@ == self.prescription_at(key));
                    }
                    if d.patient_id == patient_id {
                        v.push(d);
                        proof {
                            assert forall|j: int| 0 <= j <= i && self.prescription_at((#[trigger] es@[j]).0).patient_id == patient_id implies exists|x: int| 0 <= x < v@.len() && (#[trigger] v@[x]).id == es@[j].0 by {
                                if j == i {
                                    assert(v@[v@.len() - 1].id == es@[i as int].0);
                                } else {
                                    let x = choose|x: int| 0 <= x < v0.len() && (#[trigger] v0[x]).id == es@[j].0;
                                    assert(v@[x].id == es@[j].0);
                                }
                            }
                        }
                    } else {
                        proof {
                            assert(!(self.prescription_at(es@[i as int].0).patient_id == patient_id));
                        }
                    }
                },
                None => {
                    proof {
                        assert(false);
                    }
                    unreached()
                },
            }
            proof {
                if i as int + 1 < es@.len() {
                    assert(es@[i as int].0 < es@[i as int + 1].0);
                }
            }
            i = i + 1;
        }
        if v.len() == 0 {
            proof {
                assert forall|k: u64| #[trigger] self.prescriptions_map().dom().contains(k) implies !(self.prescription_at(k).patient_id == patient_id) by {
                    let j = choose|j: int| 0 <= j < es@.len() && (#[trigger] es@[j]).0 == k;
                    assert(es@[j].0 == k);
                    if self.prescription_at(k).patient_id == patient_id {
                        assert(exists|x: int| 0 <= x < v@.len() && (#[trigger] v@[x]).id == k);
                        assert(false);
                    }
                }
            }
            return Err(not_found_msg("No prescriptions found"));
        }
        proof {
            assert forall|k: u64| #[trigger] self.prescriptions_map().dom().contains(k) && self.prescription_at(k).patient_id == patient_id implies exists|x: int| 0 <= x < v@.len() && (#[trigger] v@[x]).id == k by {
                let j = choose|j: int| 0 <= j < es@.len() && (#[trigger] es@[j]).0 == k;
                assert(es@[j].0 == k);
            }
        }
        Ok(v)
    }

    /// Returns every stored prescription with the given doctor id, in
    /// ascending identifier order; an empty result is reported as not
    /// found, by convention.
    #[verifier::rlimit(50)]
    #[verifier::spinoff_prover]
    pub fn get_prescriptions_by_doctor_id(&self, doctor_id: u64) -> (r: Result<Vec<Prescription>, Message>)
        requires
            self.consistent(),
        ensures
            (r matches Ok(v) ==> {
                &&& v@.len() > 0
                &&& forall|i: int| 0 <= i < v@.len() ==> self.prescriptions_map().dom().contains((#[trigger] v@[i]).id) && v@[i]@ == self.prescription_at(v@[i].id) && self.prescription_at(v@[i].id).doctor_id == doctor_id
                &&& forall|k: u64| #[trigger] self.prescriptions_map().dom().contains(k) && self.prescription_at(k).doctor_id == doctor_id ==> exists|x: int| 0 <= x < v@.len() && (#[trigger] v@[x]).id == k
                &&& forall|i: int, j: int| 0 <= i < j < v@.len() ==> (#[trigger] v@[i]).id < (#[trigger] v@[j]).id
            }),
            (r matches Err(m) ==> (forall|k: u64| #[trigger] self.prescriptions_map().dom().contains(k) ==> !(self.prescription_at(k).doctor_id == doctor_id)) && (m matches Message::NotFound(s) && s@ == no_prescriptions_text())),
    {
        let es = self.prescriptions.entries();
        let mut v: Vec<Prescription> = Vec::new();
        let mut i: usize = 0;
        while i < es.len()
            invariant
                i <= es@.len(),
                forall|x: int| 0 <= x < v@.len() ==> self.prescriptions_map().dom().contains((#[trigger] v@[x]).id) && v@[x]@ == self.prescription_at(v@[x].id) && self.prescription_at(v@[x].id).doctor_id == doctor_id,
                forall|j: int| 0 <= j < i && self.prescription_at((#[trigger] es@[j]).0).doctor_id == doctor_id ==> exists|x: int| 0 <= x < v@.len() && (#[trigger] v@[x]).id == es@[j].0,
                i < es@.len() ==> (forall|x: int| 0 <= x < v@.len() ==> (#[trigger] v@[x]).id < es@[i as int].0),
                forall|x: int, y: int| 0 <= x < y < v@.len() ==> (#[trigger] v@[x]).id < (#[trigger] v@[y]).id,
            decreases es@.len() - i,
        {
            let key = es[i].0;
            proof {
                assert(self.prescriptions_map().dom().contains(es@[i as int].0));
                assert(prescription_entry_ok(self.prescriptions_map(), key, self.counter_val()));
            }
            let ghost v0 = v@;
            match decode_prescription(&es[i].1) {
                Some(d) => {
                    proof {
                        assert(d@ == self.prescription_at(key));
                    }
                    if d.doctor_id == doctor_id {
                        v.push(d);
                        proof {
                            assert forall|j: int| 0 <= j <= i && self.prescription_at((#[trigger] es@[j]).0).doctor_id == doctor_id implies exists|x: int| 0 <= x < v@.len() && (#[trigger] v@[x]).id == es@[j].0 by {
                                if j == i {
                                    assert(v@[v@.len() - 1].id == es@[i as int].0);
                                } else {
                                    let x = choose|x: int| 0 <= x < v0.len() && (#[trigger] v0[x]).id == es@[j].0;
                                    assert(v@[x].id == es@[j].0);
                                }
                            }
                        }
                    } else {
                        proof {
                            assert(!(self.prescription_at(es@[i as int].0).doctor_id == doctor_id));
                        }
                    }
                },
                None => {
                    proof {
                        assert(false);
                    }
                    unreached()
                },
            }
            proof {
                if i as int + 1 < es@.len() {
                    assert(es@[i as int].0 < es@[i as int + 1].0);
                }
            }
            i = i + 1;
        }
        if v.len() == 0 {
            proof {
                assert forall|k: u64| #[trigger] self.prescriptions_map().dom().contains(k) implies !(self.prescription_at(k).doctor_id == doctor_id) by {
                    let j = choose|j: int| 0 <= j < es@.len() && (#[trigger] es@[j]).0 == k;
                    assert(es@[j].0 == k);
                    if self.prescription_at(k).doctor_id == doctor_id {
                        assert(exists|x: int| 0 <= x < v@.len() && (#[trigger] v@[x]).id == k);
                        assert(false);
                    }
                }
            }
            return Err(not_found_msg("No prescriptions found"));
        }
        proof {
            assert forall|k: u64| #[trigger] self.prescriptions_map().dom().contains(k) && self.prescription_at(k).doctor_id == doctor_id implies exists|x: int| 0 <= x < v@.len() && (#[trigger] v@[x]).id == k by {
                let j = choose|j: int| 0 <= j < es@.len() && (#[trigger] es@[j]).0 == k;
                assert(es@[j].0 == k);
            }
        }
        Ok(v)
    }

    /// Returns every stored payment with the given patient id, in
    /// ascending identifier order; an empty result is reported as not
    /// found, by convention.
    #[verifier::rlimit(50)]
    #[verifier::spinoff_prover]
    pub fn get_payments_by_patient_id(&self, patient_id: u64) -> (r: Result<Vec<Payment>, Message>)
        requires
            self.consistent(),
        ensures
            (r matches Ok(v) ==> {
                &&& v@.len() > 0
                &&& forall|i: int| 0 <= i < v@.len() ==> self.payments_map().dom().contains((#[trigger] v@[i]).id) && v@[i]@ == self.payment_at(v@[i].id) && self.payment_at(v@[i].id).patient_id == patient_id
                &&& forall|k: u64| #[trigger] self.payments_map().dom().contains(k) && self.payment_at(k).patient_id == patient_id ==> exists|x: int| 0 <= x < v@.len() && (#[trigger] v@[x]).id == k
                &&& forall|i: int, j: int| 0 <= i < j < v@.len() ==> (#[trigger] v@[i]).id < (#[trigger] v@[j]).id
            }),
            (r matches Err(m) ==> (forall|k: u64| #[trigger] self.payments_map().dom().contains(k) ==> !(self.payment_at(k).patient_id == patient_id)) && (m matches Message::NotFound(s) && s@ == no_payments_text())),
    {
        let es = self.payments.entries();
        let mut v: Vec<Payment> = Vec::new();
        let mut i: usize = 0;
        while i < es.len()
            invariant
                i <= es@.len(),
                forall|x: int| 0 <= x < v@.len() ==> self.payments_map().dom().contains((#[trigger] v@[x]).id) && v@[x]@ == self.payment_at(v@[x].id) && self.payment_at(v@[x].id).patient_id == patient_id,
                forall|j: int| 0 <= j < i && self.payment_at((#[trigger] es@[j]).0).patient_id == patient_id ==> exists|x: int| 0 <= x < v@.len() && (#[trigger] v@[x]).id == es@[j].0,
                i < es@.len() ==> (forall|x: int| 0 <= x < v@.len() ==> (#[trigger] v@[x]).id < es@[i as int].0),
                forall|x: int, y: int| 0 <= x < y < v@.len() ==> (#[trigger] v@[x]).id < (#[trigger] v@[y]).id,
            decreases es@.len() - i,
        {
            let key = es[i].0;
            proof {
                assert(self.payments_map().dom().contains(es@[i as int].0));
                assert(payment_entry_ok(self.payments_map(), key, self.counter_val()));
            }
            let ghost v0 = v@;
            match decode_payment(&es[i].1) {
                Some(d) => {
                    proof {
                        assert(d@ == self.payment_at(key));
                    }
                    if d.patient_id == patient_id {
                        v.push(d);
                        proof {
                            assert forall|j: int| 0 <= j <= i && self.payment_at((#[trigger] es@[j]).0).patient_id == patient_id implies exists|x: int| 0 <= x < v@.len() && (#[trigger] v@[x]).id == es@[j].0 by {
                                if j == i {
                                    assert(v@[v@.len() - 1].id == es@[i as int].0);
                                } else {
                                    let x = choose|x: int| 0 <= x < v0.len() && (#[trigger] v0[x]).id == es@[j].0;
                                    assert(v@[x].id == es@[j].0);
                                }
                            }
                        }
                    } else {
                        proof {
                            assert(!(self.payment_at(es@[i as int].0).patient_id == patient_id));
                        }
                    }
                },
                None => {
                    proof {
                        assert(false);
                    }
                    unreached()
                },
            }
            proof {
                if i as int + 1 < es@.len() {
                    assert(es@[i as int].0 < es@[i as int + 1].0);
                }
            }
            i = i + 1;
        }
        if v.len() == 0 {
            proof {
                assert forall|k: u64| #[trigger] self.payments_map().dom().contains(k) implies !(self.payment_at(k).patient_id == patient_id) by {
                    let j = choose|j: int| 0 <= j < es@.len() && (#[trigger] es@[j]).0 == k;
                    assert(es@[j].0 == k);
                    if self.payment_at(k).patient_id == patient_id {
                        assert(exists|x: int| 0 <= x < v@.len() && (#[trigger] v@[x]).id == k);
                        assert(false);
                    }
                }
            }
            return Err(not_found_msg("No payments found"));
        }
        proof {
            assert forall|k: u64| #[trigger] self.payments_map().dom().contains(k) && self.payment_at(k).patient_id == patient_id implies exists|x: int| 0 <= x < v@.len() && (#[trigger] v@[x]).id == k by {
                let j = choose|j: int| 0 <= j < es@.len() && (#[trigger] es@[j]).0 == k;
                assert(es@[j].0 == k);
            }
        }
        Ok(v)
    }

    /// Returns every stored payment with the given appointment id, in
    /// ascending identifier order; an empty result is reported as not
    /// found, by convention.
    #[verifier::rlimit(50)]
    #[verifier::spinoff_prover]
    pub fn get_payments_by_appointment_id(&self, appointment_id: u64) -> (r: Result<Vec<Payment>, Message>)
        requires
            self.consistent(),
        ensures
            (r matches Ok(v) ==> {
                &&& v@.len() > 0
                &&& forall|i: int| 0 <= i < v@.len() ==> self.payments_map().dom().contains((#[trigger] v@[i]).id) && v@[i]@ == self.payment_at(v@[i].id) && self.payment_at(v@[i].id).appointment_id == appointment_id
                &&& forall|k: u64| #[trigger] self.payments_map().dom().contains(k) && self.payment_at(k).appointment_id == appointment_id ==> exists|x: int| 0 <= x < v@.len() && (#[trigger] v@[x]).id == k
                &&& forall|i: int, j: int| 0 <= i < j < v@.len() ==> (#[trigger] v@[i]).id < (#[trigger] v@[j]).id
            }),
            (r matches Err(m) ==> (forall|k: u64| #[trigger] self.payments_map().dom().contains(k) ==> !(self.payment_at(k).appointment_id == appointment_id)) && (m matches Message::NotFound(s) && s@ == no_payments_text())),
    {
        let es = self.payments.entries();
        let mut v: Vec<Payment> = Vec::new();
        let mut i: usize = 0;
        while i < es.len()
            invariant
                i <= es@.len(),
                forall|x: int| 0 <= x < v@.len() ==> self.payments_map().dom().contains((#[trigger] v@[x]).id) && v@[x]@ == self.payment_at(v@[x].id) && self.payment_at(v@[x].id).appointment_id == appointment_id,
                forall|j: int| 0 <= j < i && self.payment_at((#[trigger] es@[j]).0).appointment_id == appointment_id ==> exists|x: int| 0 <= x < v@.len() && (#[trigger] v@[x]).id == es@[j].0,
                i < es@.len() ==> (forall|x: int| 0 <= x < v@.len() ==> (#[trigger] v@[x]).id < es@[i as int].0),
                forall|x: int, y: int| 0 <= x < y < v@.len() ==> (#[trigger] v@[x]).id < (#[trigger] v@[y]).id,
            decreases es@.len() - i,
        {
            let key = es[i].0;
            proof {
                assert(self.payments_map().dom().contains(es@[i as int].0));
                assert(payment_entry_ok(self.payments_map(), key, self.counter_val()));
            }
            let ghost v0 = v@;
            match decode_payment(&es[i].1) {
                Some(d) => {
                    proof {
                        assert(d@ == self.payment_at(key));
                    }
                    if d.appointment_id == appointment_id {
                        v.push(d);
                        proof {
                            assert forall|j: int| 0 <= j <= i && self.payment_at((#[trigger] es@[j]).0).appointment_id == appointment_id implies exists|x: int| 0 <= x < v@.len() && (#[trigger] v@[x]).id == es@[j].0 by {
                                if j == i {
                                    assert(v@[v@.len() - 1].id == es@[i as int].0);
                                } else {
                                    let x = choose|x: int| 0 <= x < v0.len() && (#[trigger] v0[x]).id == es@[j].0;
                                    assert(v@[x].id == es@[j].0);
                                }
                            }
                        }
                    } else {
                        proof {
                            assert(!(self.payment_at(es@[i as int].0).appointment_id == appointment_id));
                        }
                    }
                },
                None => {
                    proof {
                        assert(false);
                    }
                    unreached()
                },
            }
            proof {
                if i as int + 1 < es@.len() {
                    assert(es@[i as int].0 < es@[i as int + 1].0);
                }
            }
            i = i + 1;
        }
        if v.len() == 0 {
            proof {
                assert forall|k: u64| #[trigger] self.payments_map().dom().contains(k) implies !(self.payment_at(k).appointment_id == appointment_id) by {
                    let j = choose|j: int| 0 <= j < es@.len() && (#[trigger] es@[j]).0 == k;
                    assert(es@[j].0 == k);
                    if self.payment_at(k).appointment_id == appointment_id {
                        assert(exists|x: int| 0 <= x < v@.len() && (#[trigger] v@[x]).id == k);
                        assert(false);
                    }
                }
            }
            return Err(not_found_msg("No payments found"));
        }
        proof {
            assert forall|k: u64| #[trigger] self.payments_map().dom().contains(k) && self.payment_at(k).appointment_id == appointment_id implies exists|x: int| 0 <= x < v@.len() && (#[trigger] v@[x]).id == k by {
                let j = choose|j: int| 0 <= j < es@.len() && (#[trigger] es@[j]).0 == k;
                assert(es@[j].0 == k);
            }
        }
        Ok(v)
    }

    /// Returns every stored medical record with the given patient id, in
    /// ascending identifier order; an empty result is reported as not
    /// found, by convention.
    #[verifier::rlimit(100)]
    #[verifier::spinoff_prover]
    pub fn get_medical_records_by_patient_id(&self, patient_id: u64) -> (r: Result<Vec<MedicalRecord>, Message>)
        requires
            self.consistent(),
        ensures
            (r matches Ok(v) ==> {
                &&& v@.len() > 0
                &&& forall|i: int| 0 <= i < v@.len() ==> self.medical_records_map().dom().contains((#[trigger] v@[i]).id) && v@[i]@ == self.medical_record_at(v@[i].id) && self.medical_record_at(v@[i].id).patient_id == patient_id
                &&& forall|k: u64| #[trigger] self.medical_records_map().dom().contains(k) && self.medical_record_at(k).patient_id == patient_id ==> exists|x: int| 0 <= x < v@.len() && (#[trigger] v@[x]).id == k
                &&& forall|i: int, j: int| 0 <= i < j < v@.len() ==> (#[trigger] v@[i]).id < (#[trigger] v@[j]).id
            }),
            (r matches Err(m) ==> (forall|k: u64| #[trigger] self.medical_records_map().dom().contains(k) ==> !(self.medical_record_at(k).patient_id == patient_id)) && (m matches Message::NotFound(s) && s@ == no_medical_records_text())),
    {
        let es = self.medical_records.entries();
        let mut v: Vec<MedicalRecord> = Vec::new();
        let mut i: usize = 0;
        while i < es.len()
            invariant
                i <= es@.len(),
                forall|x: int| 0 <= x < v@.len() ==> self.medical_records_map().dom().contains((#[trigger] v@[x]).id) && v@[x]@ == self.medical_record_at(v@[x].id) && self.medical_record_at(v@[x].id).patient_id == patient_id,
                forall|j: int| 0 <= j < i && self.medical_record_at((#[trigger] es@[j]).0).patient_id == patient_id ==> exists|x: int| 0 <= x < v@.len() && (#[trigger] v@[x]).id == es@[j].0,
                i < es@.len() ==> (forall|x: int| 0 <= x < v@.len() ==> (#[trigger] v@[x]).id < es@[i as int].0),
                forall|x: int, y: int| 0 <= x < y < v@.len() ==> (#[trigger] v@[x]).id < (#[trigger] v@[y]).id,
            decreases es@.len() - i,
        {
            let key = es[i].0;
            proof {
                assert(self.medical_records_map().dom().contains(es@[i as int].0));
                assert(medical_record_entry_ok(self.medical_records_map(), key, self.counter_val()));
            }
            let ghost v0 = v@;
            match decode_medical_record(&es[i].1) {
                Some(d) => {
                    proof {
                        assert(d@ == self.medical_record_at(key));
                    }
                    if d.patient_id == patient_id {
                        v.push(d);
                        proof {
                            assert forall|j: int| 0 <= j <= i && self.medical_record_at((#[trigger] es@[j]).0).patient_id == patient_id implies exists|x: int| 0 <= x < v@.len() && (#[trigger] v@[x]).id == es@[j].0 by {
                                if j == i {
                                    assert(v@[v@.len() - 1].id == es@[i as int].0);
                                } else {
                                    let x = choose|x: int| 0 <= x < v0.len() && (#[trigger] v0[x]).id == es@[j].0;
                                    assert(v@[x].id == es@[j].0);
                                }
                            }
                        }
                    } else {
                        proof {
                            assert(!(self.medical_record_at(es@[i as int].0).patient_id == patient_id));
                        }
                    }
                },
                None => {
                    proof {
                        assert(false);
                    }
                    unreached()
                },
            }
            proof {
                if i as int + 1 < es@.len() {
                    assert(es@[i as int].0 < es@[i as int + 1].0);
                }
            }
            i = i + 1;
        }
        if v.len() == 0 {
            proof {
                assert forall|k: u64| #[trigger] self.medical_records_map().dom().contains(k) implies !(self.medical_record_at(k).patient_id == patient_id) by {
                    let j = choose|j: int| 0 <= j < es@.len() && (#[trigger] es@[j]).0 == k;
                    assert(es@[j].0 == k);
                    if self.medical_record_at(k).patient_id == patient_id {
                        assert(exists|x: int| 0 <= x < v@.len() && (#[trigger] v@[x]).id == k);
                        assert(false);
                    }
                }
            }
            return Err(not_found_msg("No medical records found"));
        }
        proof {
            assert forall|k: u64| #[trigger] self.medical_records_map().dom().contains(k) && self.medical_record_at(k).patient_id == patient_id implies exists|x: int| 0 <= x < v@.len() && (#[trigger] v@[x]).id == k by {
                let j = choose|j: int| 0 <= j < es@.len() && (#[trigger] es@[j]).0 == k;
                assert(es@[j].0 == k);
            }
        }
        Ok(v)
    }

    /// Returns every stored medical record with the given doctor id, in
    /// ascending identifier order; an empty result is reported as not
    /// found, by convention.
    #[verifier::rlimit(100)]
    #[verifier::spinoff_prover]
    pub fn get_medical_records_by_doctor_id(&self, doctor_id: u64) -> (r: Result<Vec<MedicalRecord>, Message>)
        requires
            self.consistent(),
        ensures
            (r matches Ok(v) ==> {
                &&& v@.len() > 0
                &&& forall|i: int| 0 <= i < v@.len() ==> self.medical_records_map().dom().contains((#[trigger] v@[i]).id) && v@[i]@ == self.medical_record_at(v@[i].id) && self.medical_record_at(v@[i].id).doctor_id == doctor_id
                &&& forall|k: u64| #[trigger] self.medical_records_map().dom().contains(k) && self.medical_record_at(k).doctor_id == doctor_id ==> exists|x: int| 0 <= x < v@.len() && (#[trigger] v@[x]).id == k
                &&& forall|i: int, j: int| 0 <= i < j < v@.len() ==> (#[trigger] v@[i]).id < (#[trigger] v@[j]).id
            }),
            (r matches Err(m) ==> (forall|k: u64| #[trigger] self.medical_records_map().dom().contains(k) ==> !(self.medical_record_at(k).doctor_id == doctor_id)) && (m matches Message::NotFound(s) && s@ == no_medical_records_text())),
    {
        let es = self.medical_records.entries();
        let mut v: Vec<MedicalRecord> = Vec::new();
        let mut i: usize = 0;
        while i < es.len()
            invariant
                i <= es@.len(),
                forall|x: int| 0 <= x < v@.len() ==> self.medical_records_map().dom().contains((#[trigger] v@[x]).id) && v@[x]@ == self.medical_record_at(v@[x].id) && self.medical_record_at(v@[x].id).doctor_id == doctor_id,
                forall|j: int| 0 <= j < i && self.medical_record_at((#[trigger] es@[j]).0).doctor_id == doctor_id ==> exists|x: int| 0 <= x < v@.len() && (#[trigger] v@[x]).id == es@[j].0,
                i < es@.len() ==> (forall|x: int| 0 <= x < v@.len() ==> (#[trigger] v@[x]).id < es@[i as int].0),
                forall|x: int, y: int| 0 <= x < y < v@.len() ==> (#[trigger] v@[x]).id < (#[trigger] v@[y]).id,
            decreases es@.len() - i,
        {
            let key = es[i].0;
            proof {
                assert(self.medical_records_map().dom().contains(es@[i as int].0));
                assert(medical_record_entry_ok(self.medical_records_map(), key, self.counter_val()));
            }
            let ghost v0 = v@;
            match decode_medical_record(&es[i].1) {
                Some(d) => {
                    proof {
                        assert(d@ == self.medical_record_at(key));
                    }
                    if d.doctor_id == doctor_id {
                        v.push(d);
                        proof {
                            assert forall|j: int| 0 <= j <= i && self.medical_record_at((#[trigger] es@[j]).0).doctor_id == doctor_id implies exists|x: int| 0 <= x < v@.len() && (#[trigger] v@[x]).id == es@[j].0 by {
                                if j == i {
                                    assert(v@[v@.len() - 1].id == es@[i as int].0);
                                } else {
                                    let x = choose|x: int| 0 <= x < v0.len() && (#[trigger] v0[x]).id == es@[j].0;
                                    assert(v@[x].id == es@[j].0);
                                }
                            }
                        }
                    } else {
                        proof {
                            assert(!(self.medical_record_at(es@[i as int].0).doctor_id == doctor_id));
                        }
                    }
                },
                None => {
                    proof {
                        assert(false);
                    }
                    unreached()
                },
            }
            proof {
                if i as int + 1 < es@.len() {
                    assert(es@[i as int].0 < es@[i as int + 1].0);
                }
            }
            i = i + 1;
        }
        if v.len() == 0 {
            proof {
                assert forall|k: u64| #[trigger] self.medical_records_map().dom().contains(k) implies !(self.medical_record_at(k).doctor_id == doctor_id) by {
                    let j = choose|j: int| 0 <= j < es@.len() && (#[trigger] es@[j]).0 == k;
                    assert(es@[j].0 == k);
                    if self.medical_record_at(k).doctor_id == doctor_id {
                        assert(exists|x: int| 0 <= x < v@.len() && (#[trigger] v@[x]).id == k);
                        assert(false);
                    }
                }
            }
            return Err(not_found_msg("No medical records found"));
        }
        proof {
            assert forall|k: u64| #[trigger] self.medical_records_map().dom().contains(k) && self.medical_record_at(k).doctor_id == doctor_id implies exists|x: int| 0 <= x < v@.len() && (#[trigger] v@[x]).id == k by {
                let j = choose|j: int| 0 <= j < es@.len() && (#[trigger] es@[j]).0 == k;
                assert(es@[j].0 == k);
            }
        }
        Ok(v)
    }

    /// Sets a doctor's availability by read-modify-write with replace
    /// semantics: the last writer wins, every other field is kept.
    pub fn update_doctor_availability(&mut self, doctor_id: u64, is_available: bool) -> (r: Result<Doctor, Message>)
        requires
            old(self).consistent(),
        ensures
            final(self).consistent(),
            (r matches Ok(d) ==> {
                &&& old(self).doctors_map().dom().contains(doctor_id)
                &&& (d@ == DoctorView { is_available, ..old(self).doctor_at(doctor_id) })
                &&& final(self).counter_val() == old(self).counter_val()
                &&& final(self).doctors_map() == old(self).doctors_map().insert(doctor_id, enc_doctor(d@))
                &&& same_maps_except_doctors(*old(self), *final(self))
            }),
            (r matches Err(m) ==> {
                &&& !old(self).doctors_map().dom().contains(doctor_id)
                &&& (m matches Message::NotFound(s) && s@ == doctor_not_found_text())
                &&& *final(self) == *old(self)
            }),
    {
        match self.doctors.get(doctor_id) {
            None => Err(not_found_msg("Doctor not found")),
            Some(bytes) => {
                proof {
                    assert(doctor_entry_ok(self.doctors_map(), doctor_id, self.counter_val()));
                }
                match decode_doctor(&bytes) {
                    None => {
                        proof {
                            assert(false);
                        }
                        unreached()
                    },
                    Some(d0) => {
                        let d = Doctor { is_available, ..d0 };
                        let nb = encode_doctor(&d);
                        self.doctors.insert(doctor_id, nb);
                        proof {
                            lemma_doctors_ok_insert(
                                old(self).doctors_map(),
                                old(self).counter_val(),
                                old(self).counter_val(),
                                doctor_id,
                                d@,
                            );
                        }
                        Ok(d)
                    },
                }
            },
        }
    }

    /// Sets an appointment's status by read-modify-write with replace
    /// semantics: the last writer wins, every other field is kept.
    pub fn update_appointment_status(&mut self, appointment_id: u64, status: String) -> (r: Result<Appointment, Message>)
        requires
            old(self).consistent(),
        ensures
            final(self).consistent(),
            (r matches Ok(d) ==> {
                &&& old(self).appointments_map().dom().contains(appointment_id)
                &&& (d@ == AppointmentView { status: status@, ..old(self).appointment_at(appointment_id) })
                &&& final(self).counter_val() == old(self).counter_val()
                &&& final(self).appointments_map() == old(self).appointments_map().insert(appointment_id, enc_appointment(d@))
                &&& same_maps_except_appointments(*old(self), *final(self))
            }),
            (r matches Err(m) ==> {
                &&& !old(self).appointments_map().dom().contains(appointment_id)
                &&& (m matches Message::NotFound(s) && s@ == appointment_not_found_text())
                &&& *final(self) == *old(self)
            }),
    {
        match self.appointments.get(appointment_id) {
            None => Err(not_found_msg("Appointment not found")),
            Some(bytes) => {
                proof {
                    assert(appointment_entry_ok(self.appointments_map(), appointment_id, self.counter_val()));
                }
                match decode_appointment(&bytes) {
                    None => {
                        proof {
                            assert(false);
                        }
                        unreached()
                    },
                    Some(d0) => {
                        let d = Appointment { status, ..d0 };
                        let nb = encode_appointment(&d);
                        self.appointments.insert(appointment_id, nb);
                        proof {
                            lemma_appointments_ok_insert(
                                old(self).appointments_map(),
                                old(self).counter_val(),
                                old(self).counter_val(),
                                appointment_id,
                                d@,
                            );
                        }
                        Ok(d)
                    },
                }
            },
        }
    }

    /// Sets an appointment's video link by read-modify-write with replace
    /// semantics: the last writer wins, every other field is kept.
    pub fn update_appointment_video_link(&mut self, appointment_id: u64, video_link: String) -> (r: Result<Appointment, Message>)
        requires
            old(self).consistent(),
        ensures
            final(self).consistent(),
            (r matches Ok(d) ==> {
                &&& old(self).appointments_map().dom().contains(appointment_id)
                &&& (d@ == AppointmentView { video_link: Some(video_link@), ..old(self).appointment_at(appointment_id) })
                &&& final(self).counter_val() == old(self).counter_val()
                &&& final(self).appointments_map() == old(self).appointments_map().insert(appointment_id, enc_appointment(d@))
                &&& same_maps_except_appointments(*old(self), *final(self))
            }),
            (r matches Err(m) ==> {
                &&& !old(self).appointments_map().dom().contains(appointment_id)
                &&& (m matches Message::NotFound(s) && s@ == appointment_not_found_text())
                &&& *final(self) == *old(self)
            }),
    {
        match self.appointments.get(appointment_id) {
            None => Err(not_found_msg("Appointment not found")),
            Some(bytes) => {
                proof {
                    assert(appointment_entry_ok(self.appointments_map(), appointment_id, self.counter_val()));
                }
                match decode_appointment(&bytes) {
                    None => {
                        proof {
                            assert(false);
                        }
                        unreached()
                    },
                    Some(d0) => {
                        let d = Appointment { video_link: Some(video_link), ..d0 };
                        let nb = encode_appointment(&d);
                        self.appointments.insert(appointment_id, nb);
                        proof {
                            lemma_appointments_ok_insert(
                                old(self).appointments_map(),
                                old(self).counter_val(),
                                old(self).counter_val(),
                                appointment_id,
                                d@,
                            );
                        }
                        Ok(d)
                    },
                }
            },
        }
    }

}

// ---------------------------------------------------------------------------
// Laws of the store.
// ---------------------------------------------------------------------------

/// What one identifier issue does: the issued value is the counter before
/// the step and the counter moves one past it.
pub open spec fn issue_step(pre: u64, post: u64, issued: u64) -> bool {
    issued == pre && post == pre + 1
}

proof fn lemma_counter_chain(counters: Seq<u64>, ids: Seq<u64>, i: int, j: int)
    requires
        counters.len() == ids.len() + 1,
        forall|x: int|
            0 <= x < ids.len() ==> issue_step(counters[x], counters[x + 1], #[trigger] ids[x]),
        0 <= i <= j < counters.len(),
    ensures
        counters[j] == counters[i] + (j - i),
    decreases j - i,
{
    if i < j {
        lemma_counter_chain(counters, ids, i, j - 1);
        assert(issue_step(counters[j - 1], counters[j], ids[j - 1]));
    }
}

/// Identifier uniqueness: an issue step is exactly what one `next_id`
/// call ensures of the counter, so along any chain of issues the returned
/// identifiers strictly increase and are pairwise distinct.
pub proof fn lemma_issued_ids_distinct(counters: Seq<u64>, ids: Seq<u64>)
    requires
        counters.len() == ids.len() + 1,
        forall|x: int|
            0 <= x < ids.len() ==> issue_step(counters[x], counters[x + 1], #[trigger] ids[x]),
    ensures
        forall|i: int, j: int| 0 <= i < j < ids.len() ==> #[trigger] ids[i] < #[trigger] ids[j],
{
    assert forall|i: int, j: int|
        0 <= i < j < ids.len() implies #[trigger] ids[i] < #[trigger] ids[j] by {
        lemma_counter_chain(counters, ids, i, j);
        assert(issue_step(counters[i], counters[i + 1], ids[i]));
        assert(issue_step(counters[j], counters[j + 1], ids[j]));
    }
}

/// Replace semantics of the record maps: writing one key twice keeps the
/// second value; the second write displaces exactly the first value; and
/// no other key is touched.
pub proof fn lemma_insert_replace(m: Map<u64, Seq<u8>>, k: u64, v1: Seq<u8>, v2: Seq<u8>)
    ensures
        m.insert(k, v1).insert(k, v2) =~= m.insert(k, v2),
        m.insert(k, v1)[k] == v1,
        m.insert(k, v1).insert(k, v2)[k] == v2,
        forall|x: u64|
            x != k ==> (#[trigger] m.insert(k, v1).insert(k, v2).dom().contains(x)
                <==> m.dom().contains(x)),
        forall|x: u64|
            x != k && m.dom().contains(x) ==> #[trigger] m.insert(k, v1).insert(k, v2)[x] == m[x],
{
}

} // verus!
