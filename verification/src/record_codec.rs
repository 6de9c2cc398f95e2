//! The durable byte form of every record type: fields are laid out in
//! declaration order using the shared primitives, with no padding. For each
//! record type there is a specification-level encoder and decoder, an
//! executable pair proved against them, and a round-trip lemma: decoding an
//! encoded record yields the record again, exactly.

#![verifier::loop_isolation(false)]

use vstd::prelude::*;
use vstd::seq_lib::lemma_concat_associative;

use crate::codec::dec_bool;
use crate::codec::dec_opt_str;
use crate::codec::dec_str;
use crate::codec::dec_str_list;
use crate::codec::dec_u64;
use crate::codec::enc_bool;
use crate::codec::enc_opt_str;
use crate::codec::enc_str;
use crate::codec::enc_str_list;
use crate::codec::lemma_bool_round_trip;
use crate::codec::lemma_opt_str_round_trip;
use crate::codec::lemma_str_list_round_trip;
use crate::codec::lemma_str_round_trip;
use crate::codec::lemma_u64_round_trip;
use crate::codec::opt_str_encodable;
use crate::codec::read_bool;
use crate::codec::read_opt_str;
use crate::codec::read_str;
use crate::codec::read_strs;
use crate::codec::read_u64;
use crate::codec::str_encodable;
use crate::codec::str_list_encodable;
use crate::codec::u64_le_bytes;
use crate::codec::write_bool;
use crate::codec::write_opt_str;
use crate::codec::write_str;
use crate::codec::write_strs;
use crate::codec::write_u64;
use crate::records::Appointment;
use crate::records::AppointmentView;
use crate::records::Chat;
use crate::records::ChatView;
use crate::records::Consultation;
use crate::records::ConsultationView;
use crate::records::Department;
use crate::records::DepartmentView;
use crate::records::Doctor;
use crate::records::DoctorView;
use crate::records::EmergencyContact;
use crate::records::EmergencyContactView;
use crate::records::MedicalRecord;
use crate::records::MedicalRecordView;
use crate::records::Patient;
use crate::records::PatientView;
use crate::records::Payment;
use crate::records::PaymentView;
use crate::records::Prescription;
use crate::records::PrescriptionView;

verus! {

/// Every record type declares the same maximum encoded size for its
/// durable form; oversized records are a design constraint to flag, not a
/// silently truncated write.
pub const MAX_ENCODED_SIZE: u64 = 512;


// ---------------------------------------------------------------------------
// Department.
// ---------------------------------------------------------------------------

pub open spec fn enc_department(v: DepartmentView) -> Seq<u8> {
    u64_le_bytes(v.id) + enc_str(v.name) + enc_str(v.description) + u64_le_bytes(v.created_at)
}

pub open spec fn department_encodable(v: DepartmentView) -> bool {
    str_encodable(v.name) && str_encodable(v.description)
}

pub open spec fn dec_department(b: Seq<u8>) -> Option<(DepartmentView, Seq<u8>)> {
    match dec_u64(b) {
        None => None,
        Some((id, b1)) =>
        match dec_str(b1) {
            None => None,
            Some((name, b2)) =>
            match dec_str(b2) {
                None => None,
                Some((description, b3)) =>
                match dec_u64(b3) {
                    None => None,
                    Some((created_at, b4)) =>
                    Some((DepartmentView { id, name, description, created_at }, b4)),
                },
            },
        },
    }
}

pub open spec fn dec_department_exact(b: Seq<u8>) -> Option<DepartmentView> {
    match dec_department(b) {
        Some(p) => if p.1.len() == 0 {
            Some(p.0)
        } else {
            None
        },
        None => None,
    }
}

#[verifier::rlimit(50)]
#[verifier::spinoff_prover]
pub proof fn lemma_department_round_trip(v: DepartmentView, rest: Seq<u8>)
    requires
        department_encodable(v),
    ensures
        dec_department(enc_department(v) + rest) == Some((v, rest)),
{
    let c1 = u64_le_bytes(v.id);
    let c2 = enc_str(v.name);
    let c3 = enc_str(v.description);
    let c4 = u64_le_bytes(v.created_at);
    let r3 = c4 + rest;
    let r2 = c3 + r3;
    let r1 = c2 + r2;
    let b = enc_department(v) + rest;
    lemma_concat_associative(c1 + c2 + c3, c4, rest);
    lemma_concat_associative(c1 + c2, c3, r3);
    lemma_concat_associative(c1, c2, r2);
    assert(b == c1 + r1);
    lemma_u64_round_trip(v.id, r1);
    assert(dec_u64(b) == Some((v.id, r1)));
    lemma_str_round_trip(v.name, r2);
    assert(dec_str(r1) == Some((v.name, r2)));
    lemma_str_round_trip(v.description, r3);
    assert(dec_str(r2) == Some((v.description, r3)));
    lemma_u64_round_trip(v.created_at, rest);
    assert(dec_u64(r3) == Some((v.created_at, rest)));
}

/// Decoding an encoded department yields the same value again, exactly.
#[verifier::rlimit(50)]
#[verifier::spinoff_prover]
pub proof fn lemma_department_exact_round_trip(v: DepartmentView)
    requires
        department_encodable(v),
    ensures
        dec_department_exact(enc_department(v)) == Some(v),
{
    lemma_department_round_trip(v, Seq::empty());
    assert(enc_department(v) + Seq::<u8>::empty() =~= enc_department(v));
}

#[verifier::rlimit(50)]
#[verifier::spinoff_prover]
pub fn write_department(out: &mut Vec<u8>, x: &Department)
    ensures
        final(out)@ == old(out)@ + enc_department(x@),
        department_encodable(x@),
{
    write_u64(out, x.id);
    write_str(out, &x.name);
    write_str(out, &x.description);
    write_u64(out, x.created_at);
    proof {
        let v = x@;
        let c1 = u64_le_bytes(v.id);
        let c2 = enc_str(v.name);
        let c3 = enc_str(v.description);
        let c4 = u64_le_bytes(v.created_at);
        lemma_concat_associative(old(out)@, c1, c2);
        lemma_concat_associative(old(out)@, c1 + c2, c3);
        lemma_concat_associative(old(out)@, c1 + c2 + c3, c4);
    }
}

pub fn read_department(b: &Vec<u8>, pos: usize) -> (r: Option<(Department, usize)>)
    requires
        pos <= b@.len(),
    ensures
        (r matches Some(p) ==> pos <= p.1 <= b@.len() && dec_department(b@.skip(pos as int))
            == Some((p.0@, b@.skip(p.1 as int)))),
        r is None ==> dec_department(b@.skip(pos as int)) is None,
{
    match read_u64(b, pos) {
        None => None,
        Some((id, p1)) =>
        match read_str(b, p1) {
            None => None,
            Some((name, p2)) =>
            match read_str(b, p2) {
                None => None,
                Some((description, p3)) =>
                match read_u64(b, p3) {
                    None => None,
                    Some((created_at, p4)) =>
                    Some((Department { id, name, description, created_at }, p4)),
                },
            },
        },
    }
}

pub fn encode_department(x: &Department) -> (r: Vec<u8>)
    ensures
        r@ == enc_department(x@),
        department_encodable(x@),
{
    let mut out: Vec<u8> = Vec::new();
    write_department(&mut out, x);
    assert(Seq::<u8>::empty() + enc_department(x@) =~= enc_department(x@));
    out
}

pub fn decode_department(b: &Vec<u8>) -> (r: Option<Department>)
    ensures
        (r matches Some(d) ==> dec_department_exact(b@) == Some(d@)),
        r is None ==> dec_department_exact(b@) is None,
{
    proof {
        assert(b@.skip(0) =~= b@);
    }
    match read_department(b, 0) {
        None => None,
        Some((d, p)) => {
            if p == b.len() {
                Some(d)
            } else {
                None
            }
        },
    }
}

// ---------------------------------------------------------------------------
// Doctor.
// ---------------------------------------------------------------------------

pub open spec fn enc_doctor(v: DoctorView) -> Seq<u8> {
    u64_le_bytes(v.id) + enc_str(v.name) + u64_le_bytes(v.department_id) + enc_str(v.image) + enc_bool(v.is_available)
}

pub open spec fn doctor_encodable(v: DoctorView) -> bool {
    str_encodable(v.name) && str_encodable(v.image)
}

pub open spec fn dec_doctor(b: Seq<u8>) -> Option<(DoctorView, Seq<u8>)> {
    match dec_u64(b) {
        None => None,
        Some((id, b1)) =>
        match dec_str(b1) {
            None => None,
            Some((name, b2)) =>
            match dec_u64(b2) {
                None => None,
                Some((department_id, b3)) =>
                match dec_str(b3) {
                    None => None,
                    Some((image, b4)) =>
                    match dec_bool(b4) {
                        None => None,
                        Some((is_available, b5)) =>
                        Some((DoctorView { id, name, department_id, image, is_available }, b5)),
                    },
                },
            },
        },
    }
}

pub open spec fn dec_doctor_exact(b: Seq<u8>) -> Option<DoctorView> {
    match dec_doctor(b) {
        Some(p) => if p.1.len() == 0 {
            Some(p.0)
        } else {
            None
        },
        None => None,
    }
}

#[verifier::rlimit(50)]
#[verifier::spinoff_prover]
pub proof fn lemma_doctor_round_trip(v: DoctorView, rest: Seq<u8>)
    requires
        doctor_encodable(v),
    ensures
        dec_doctor(enc_doctor(v) + rest) == Some((v, rest)),
{
    let c1 = u64_le_bytes(v.id);
    let c2 = enc_str(v.name);
    let c3 = u64_le_bytes(v.department_id);
    let c4 = enc_str(v.image);
    let c5 = enc_bool(v.is_available);
    let r4 = c5 + rest;
    let r3 = c4 + r4;
    let r2 = c3 + r3;
    let r1 = c2 + r2;
    let b = enc_doctor(v) + rest;
    lemma_concat_associative(c1 + c2 + c3 + c4, c5, rest);
    lemma_concat_associative(c1 + c2 + c3, c4, r4);
    lemma_concat_associative(c1 + c2, c3, r3);
    lemma_concat_associative(c1, c2, r2);
    assert(b == c1 + r1);
    lemma_u64_round_trip(v.id, r1);
    assert(dec_u64(b) == Some((v.id, r1)));
    lemma_str_round_trip(v.name, r2);
    assert(dec_str(r1) == Some((v.name, r2)));
    lemma_u64_round_trip(v.department_id, r3);
    assert(dec_u64(r2) == Some((v.department_id, r3)));
    lemma_str_round_trip(v.image, r4);
    assert(dec_str(r3) == Some((v.image, r4)));
    lemma_bool_round_trip(v.is_available, rest);
    assert(dec_bool(r4) == Some((v.is_available, rest)));
}

/// Decoding an encoded doctor yields the same value again, exactly.
#[verifier::rlimit(50)]
#[verifier::spinoff_prover]
pub proof fn lemma_doctor_exact_round_trip(v: DoctorView)
    requires
        doctor_encodable(v),
    ensures
        dec_doctor_exact(enc_doctor(v)) == Some(v),
{
    lemma_doctor_round_trip(v, Seq::empty());
    assert(enc_doctor(v) + Seq::<u8>::empty() =~= enc_doctor(v));
}

#[verifier::rlimit(50)]
#[verifier::spinoff_prover]
pub fn write_doctor(out: &mut Vec<u8>, x: &Doctor)
    ensures
        final(out)@ == old(out)@ + enc_doctor(x@),
        doctor_encodable(x@),
{
    write_u64(out, x.id);
    write_str(out, &x.name);
    write_u64(out, x.department_id);
    write_str(out, &x.image);
    write_bool(out, x.is_available);
    proof {
        let v = x@;
        let c1 = u64_le_bytes(v.id);
        let c2 = enc_str(v.name);
        let c3 = u64_le_bytes(v.department_id);
        let c4 = enc_str(v.image);
        let c5 = enc_bool(v.is_available);
        lemma_concat_associative(old(out)@, c1, c2);
        lemma_concat_associative(old(out)@, c1 + c2, c3);
        lemma_concat_associative(old(out)@, c1 + c2 + c3, c4);
        lemma_concat_associative(old(out)@, c1 + c2 + c3 + c4, c5);
    }
}

pub fn read_doctor(b: &Vec<u8>, pos: usize) -> (r: Option<(Doctor, usize)>)
    requires
        pos <= b@.len(),
    ensures
        (r matches Some(p) ==> pos <= p.1 <= b@.len() && dec_doctor(b@.skip(pos as int))
            == Some((p.0@, b@.skip(p.1 as int)))),
        r is None ==> dec_doctor(b@.skip(pos as int)) is None,
{
    match read_u64(b, pos) {
        None => None,
        Some((id, p1)) =>
        match read_str(b, p1) {
            None => None,
            Some((name, p2)) =>
            match read_u64(b, p2) {
                None => None,
                Some((department_id, p3)) =>
                match read_str(b, p3) {
                    None => None,
                    Some((image, p4)) =>
                    match read_bool(b, p4) {
                        None => None,
                        Some((is_available, p5)) =>
                        Some((Doctor { id, name, department_id, image, is_available }, p5)),
                    },
                },
            },
        },
    }
}

pub fn encode_doctor(x: &Doctor) -> (r: Vec<u8>)
    ensures
        r@ == enc_doctor(x@),
        doctor_encodable(x@),
{
    let mut out: Vec<u8> = Vec::new();
    write_doctor(&mut out, x);
    assert(Seq::<u8>::empty() + enc_doctor(x@) =~= enc_doctor(x@));
    out
}

pub fn decode_doctor(b: &Vec<u8>) -> (r: Option<Doctor>)
    ensures
        (r matches Some(d) ==> dec_doctor_exact(b@) == Some(d@)),
        r is None ==> dec_doctor_exact(b@) is None,
{
    proof {
        assert(b@.skip(0) =~= b@);
    }
    match read_doctor(b, 0) {
        None => None,
        Some((d, p)) => {
            if p == b.len() {
                Some(d)
            } else {
                None
            }
        },
    }
}

// ---------------------------------------------------------------------------
// EmergencyContact.
// ---------------------------------------------------------------------------

pub open spec fn enc_contact(v: EmergencyContactView) -> Seq<u8> {
    enc_str(v.name) + enc_str(v.phone_number) + enc_str(v.relationship)
}

pub open spec fn contact_encodable(v: EmergencyContactView) -> bool {
    &&& str_encodable(v.name)
    &&& str_encodable(v.phone_number)
    &&& str_encodable(v.relationship)
}

pub open spec fn dec_contact(b: Seq<u8>) -> Option<(EmergencyContactView, Seq<u8>)> {
    match dec_str(b) {
        None => None,
        Some((name, b1)) =>
        match dec_str(b1) {
            None => None,
            Some((phone_number, b2)) =>
            match dec_str(b2) {
                None => None,
                Some((relationship, b3)) =>
                Some((EmergencyContactView { name, phone_number, relationship }, b3)),
            },
        },
    }
}

#[verifier::rlimit(50)]
#[verifier::spinoff_prover]
pub proof fn lemma_contact_round_trip(v: EmergencyContactView, rest: Seq<u8>)
    requires
        contact_encodable(v),
    ensures
        dec_contact(enc_contact(v) + rest) == Some((v, rest)),
{
    let c1 = enc_str(v.name);
    let c2 = enc_str(v.phone_number);
    let c3 = enc_str(v.relationship);
    let r2 = c3 + rest;
    let r1 = c2 + r2;
    let b = enc_contact(v) + rest;
    lemma_concat_associative(c1 + c2, c3, rest);
    lemma_concat_associative(c1, c2, r2);
    assert(b == c1 + r1);
    lemma_str_round_trip(v.name, r1);
    assert(dec_str(b) == Some((v.name, r1)));
    lemma_str_round_trip(v.phone_number, r2);
    assert(dec_str(r1) == Some((v.phone_number, r2)));
    lemma_str_round_trip(v.relationship, rest);
    assert(dec_str(r2) == Some((v.relationship, rest)));
}

#[verifier::rlimit(50)]
#[verifier::spinoff_prover]
pub fn write_contact(out: &mut Vec<u8>, x: &EmergencyContact)
    ensures
        final(out)@ == old(out)@ + enc_contact(x@),
        contact_encodable(x@),
{
    write_str(out, &x.name);
    write_str(out, &x.phone_number);
    write_str(out, &x.relationship);
    proof {
        let v = x@;
        let c1 = enc_str(v.name);
        let c2 = enc_str(v.phone_number);
        let c3 = enc_str(v.relationship);
        lemma_concat_associative(old(out)@, c1, c2);
        lemma_concat_associative(old(out)@, c1 + c2, c3);
    }
}

pub fn read_contact(b: &Vec<u8>, pos: usize) -> (r: Option<(EmergencyContact, usize)>)
    requires
        pos <= b@.len(),
    ensures
        (r matches Some(p) ==> pos <= p.1 <= b@.len() && dec_contact(b@.skip(pos as int))
            == Some((p.0@, b@.skip(p.1 as int)))),
        r is None ==> dec_contact(b@.skip(pos as int)) is None,
{
    match read_str(b, pos) {
        None => None,
        Some((name, p1)) =>
        match read_str(b, p1) {
            None => None,
            Some((phone_number, p2)) =>
            match read_str(b, p2) {
                None => None,
                Some((relationship, p3)) =>
                Some((EmergencyContact { name, phone_number, relationship }, p3)),
            },
        },
    }
}

// ---------------------------------------------------------------------------
// Patient.
// ---------------------------------------------------------------------------

pub open spec fn enc_patient(v: PatientView) -> Seq<u8> {
    u64_le_bytes(v.id) + enc_str(v.name) + u64_le_bytes(v.age) + enc_str(v.gender) + enc_str(v.phone_number) + enc_str(v.email) + enc_str(v.address) + enc_contact(v.emergency_contact) + enc_str_list(v.allergies) + enc_str_list(v.current_medications) + enc_str_list(v.medical_history)
}

pub open spec fn patient_encodable(v: PatientView) -> bool {
    &&& str_encodable(v.name)
    &&& str_encodable(v.gender)
    &&& str_encodable(v.phone_number)
    &&& str_encodable(v.email)
    &&& str_encodable(v.address)
    &&& contact_encodable(v.emergency_contact)
    &&& str_list_encodable(v.allergies)
    &&& str_list_encodable(v.current_medications)
    &&& str_list_encodable(v.medical_history)
}

pub open spec fn dec_patient(b: Seq<u8>) -> Option<(PatientView, Seq<u8>)> {
    match dec_u64(b) {
        None => None,
        Some((id, b1)) =>
        match dec_str(b1) {
            None => None,
            Some((name, b2)) =>
            match dec_u64(b2) {
                None => None,
                Some((age, b3)) =>
                match dec_str(b3) {
                    None => None,
                    Some((gender, b4)) =>
                    match dec_str(b4) {
                        None => None,
                        Some((phone_number, b5)) =>
                        match dec_str(b5) {
                            None => None,
                            Some((email, b6)) =>
                            match dec_str(b6) {
                                None => None,
                                Some((address, b7)) =>
                                match dec_contact(b7) {
                                    None => None,
                                    Some((emergency_contact, b8)) =>
                                    match dec_str_list(b8) {
                                        None => None,
                                        Some((allergies, b9)) =>
                                        match dec_str_list(b9) {
                                            None => None,
                                            Some((current_medications, b10)) =>
                                            match dec_str_list(b10) {
                                                None => None,
                                                Some((medical_history, b11)) =>
                                                Some((PatientView { id, name, age, gender, phone_number, email, address, emergency_contact, allergies, current_medications, medical_history }, b11)),
                                            },
                                        },
                                    },
                                },
                            },
                        },
                    },
                },
            },
        },
    }
}

pub open spec fn dec_patient_exact(b: Seq<u8>) -> Option<PatientView> {
    match dec_patient(b) {
        Some(p) => if p.1.len() == 0 {
            Some(p.0)
        } else {
            None
        },
        None => None,
    }
}

#[verifier::rlimit(50)]
#[verifier::spinoff_prover]
pub proof fn lemma_patient_round_trip(v: PatientView, rest: Seq<u8>)
    requires
        patient_encodable(v),
    ensures
        dec_patient(enc_patient(v) + rest) == Some((v, rest)),
{
    let c1 = u64_le_bytes(v.id);
    let c2 = enc_str(v.name);
    let c3 = u64_le_bytes(v.age);
    let c4 = enc_str(v.gender);
    let c5 = enc_str(v.phone_number);
    let c6 = enc_str(v.email);
    let c7 = enc_str(v.address);
    let c8 = enc_contact(v.emergency_contact);
    let c9 = enc_str_list(v.allergies);
    let c10 = enc_str_list(v.current_medications);
    let c11 = enc_str_list(v.medical_history);
    let r10 = c11 + rest;
    let r9 = c10 + r10;
    let r8 = c9 + r9;
    let r7 = c8 + r8;
    let r6 = c7 + r7;
    let r5 = c6 + r6;
    let r4 = c5 + r5;
    let r3 = c4 + r4;
    let r2 = c3 + r3;
    let r1 = c2 + r2;
    let b = enc_patient(v) + rest;
    lemma_concat_associative(c1 + c2 + c3 + c4 + c5 + c6 + c7 + c8 + c9 + c10, c11, rest);
    lemma_concat_associative(c1 + c2 + c3 + c4 + c5 + c6 + c7 + c8 + c9, c10, r10);
    lemma_concat_associative(c1 + c2 + c3 + c4 + c5 + c6 + c7 + c8, c9, r9);
    lemma_concat_associative(c1 + c2 + c3 + c4 + c5 + c6 + c7, c8, r8);
    lemma_concat_associative(c1 + c2 + c3 + c4 + c5 + c6, c7, r7);
    lemma_concat_associative(c1 + c2 + c3 + c4 + c5, c6, r6);
    lemma_concat_associative(c1 + c2 + c3 + c4, c5, r5);
    lemma_concat_associative(c1 + c2 + c3, c4, r4);
    lemma_concat_associative(c1 + c2, c3, r3);
    lemma_concat_associative(c1, c2, r2);
    assert(b == c1 + r1);
    lemma_u64_round_trip(v.id, r1);
    assert(dec_u64(b) == Some((v.id, r1)));
    lemma_str_round_trip(v.name, r2);
    assert(dec_str(r1) == Some((v.name, r2)));
    lemma_u64_round_trip(v.age, r3);
    assert(dec_u64(r2) == Some((v.age, r3)));
    lemma_str_round_trip(v.gender, r4);
    assert(dec_str(r3) == Some((v.gender, r4)));
    lemma_str_round_trip(v.phone_number, r5);
    assert(dec_str(r4) == Some((v.phone_number, r5)));
    lemma_str_round_trip(v.email, r6);
    assert(dec_str(r5) == Some((v.email, r6)));
    lemma_str_round_trip(v.address, r7);
    assert(dec_str(r6) == Some((v.address, r7)));
    lemma_contact_round_trip(v.emergency_contact, r8);
    assert(dec_contact(r7) == Some((v.emergency_contact, r8)));
    lemma_str_list_round_trip(v.allergies, r9);
    assert(dec_str_list(r8) == Some((v.allergies, r9)));
    lemma_str_list_round_trip(v.current_medications, r10);
    assert(dec_str_list(r9) == Some((v.current_medications, r10)));
    lemma_str_list_round_trip(v.medical_history, rest);
    assert(dec_str_list(r10) == Some((v.medical_history, rest)));
}

/// Decoding an encoded patient yields the same value again, exactly.
#[verifier::rlimit(50)]
#[verifier::spinoff_prover]
pub proof fn lemma_patient_exact_round_trip(v: PatientView)
    requires
        patient_encodable(v),
    ensures
        dec_patient_exact(enc_patient(v)) == Some(v),
{
    lemma_patient_round_trip(v, Seq::empty());
    assert(enc_patient(v) + Seq::<u8>::empty() =~= enc_patient(v));
}

#[verifier::rlimit(50)]
#[verifier::spinoff_prover]
pub fn write_patient(out: &mut Vec<u8>, x: &Patient)
    ensures
        final(out)@ == old(out)@ + enc_patient(x@),
        patient_encodable(x@),
{
    write_u64(out, x.id);
    write_str(out, &x.name);
    write_u64(out, x.age);
    write_str(out, &x.gender);
    write_str(out, &x.phone_number);
    write_str(out, &x.email);
    write_str(out, &x.address);
    write_contact(out, &x.emergency_contact);
    write_strs(out, &x.allergies);
    write_strs(out, &x.current_medications);
    write_strs(out, &x.medical_history);
    proof {
        let v = x@;
        let c1 = u64_le_bytes(v.id);
        let c2 = enc_str(v.name);
        let c3 = u64_le_bytes(v.age);
        let c4 = enc_str(v.gender);
        let c5 = enc_str(v.phone_number);
        let c6 = enc_str(v.email);
        let c7 = enc_str(v.address);
        let c8 = enc_contact(v.emergency_contact);
        let c9 = enc_str_list(v.allergies);
        let c10 = enc_str_list(v.current_medications);
        let c11 = enc_str_list(v.medical_history);
        lemma_concat_associative(old(out)@, c1, c2);
        lemma_concat_associative(old(out)@, c1 + c2, c3);
        lemma_concat_associative(old(out)@, c1 + c2 + c3, c4);
        lemma_concat_associative(old(out)@, c1 + c2 + c3 + c4, c5);
        lemma_concat_associative(old(out)@, c1 + c2 + c3 + c4 + c5, c6);
        lemma_concat_associative(old(out)@, c1 + c2 + c3 + c4 + c5 + c6, c7);
        lemma_concat_associative(old(out)@, c1 + c2 + c3 + c4 + c5 + c6 + c7, c8);
        lemma_concat_associative(old(out)@, c1 + c2 + c3 + c4 + c5 + c6 + c7 + c8, c9);
        lemma_concat_associative(old(out)@, c1 + c2 + c3 + c4 + c5 + c6 + c7 + c8 + c9, c10);
        lemma_concat_associative(old(out)@, c1 + c2 + c3 + c4 + c5 + c6 + c7 + c8 + c9 + c10, c11);
    }
}

pub fn read_patient(b: &Vec<u8>, pos: usize) -> (r: Option<(Patient, usize)>)
    requires
        pos <= b@.len(),
    ensures
        (r matches Some(p) ==> pos <= p.1 <= b@.len() && dec_patient(b@.skip(pos as int))
            == Some((p.0@, b@.skip(p.1 as int)))),
        r is None ==> dec_patient(b@.skip(pos as int)) is None,
{
    match read_u64(b, pos) {
        None => None,
        Some((id, p1)) =>
        match read_str(b, p1) {
            None => None,
            Some((name, p2)) =>
            match read_u64(b, p2) {
                None => None,
                Some((age, p3)) =>
                match read_str(b, p3) {
                    None => None,
                    Some((gender, p4)) =>
                    match read_str(b, p4) {
                        None => None,
                        Some((phone_number, p5)) =>
                        match read_str(b, p5) {
                            None => None,
                            Some((email, p6)) =>
                            match read_str(b, p6) {
                                None => None,
                                Some((address, p7)) =>
                                match read_contact(b, p7) {
                                    None => None,
                                    Some((emergency_contact, p8)) =>
                                    match read_strs(b, p8) {
                                        None => None,
                                        Some((allergies, p9)) =>
                                        match read_strs(b, p9) {
                                            None => None,
                                            Some((current_medications, p10)) =>
                                            match read_strs(b, p10) {
                                                None => None,
                                                Some((medical_history, p11)) =>
                                                Some((Patient { id, name, age, gender, phone_number, email, address, emergency_contact, allergies, current_medications, medical_history }, p11)),
                                            },
                                        },
                                    },
                                },
                            },
                        },
                    },
                },
            },
        },
    }
}

pub fn encode_patient(x: &Patient) -> (r: Vec<u8>)
    ensures
        r@ == enc_patient(x@),
        patient_encodable(x@),
{
    let mut out: Vec<u8> = Vec::new();
    write_patient(&mut out, x);
    assert(Seq::<u8>::empty() + enc_patient(x@) =~= enc_patient(x@));
    out
}

pub fn decode_patient(b: &Vec<u8>) -> (r: Option<Patient>)
    ensures
        (r matches Some(d) ==> dec_patient_exact(b@) == Some(d@)),
        r is None ==> dec_patient_exact(b@) is None,
{
    proof {
        assert(b@.skip(0) =~= b@);
    }
    match read_patient(b, 0) {
        None => None,
        Some((d, p)) => {
            if p == b.len() {
                Some(d)
            } else {
                None
            }
        },
    }
}

// ---------------------------------------------------------------------------
// Consultation.
// ---------------------------------------------------------------------------

pub open spec fn enc_consultation(v: ConsultationView) -> Seq<u8> {
    u64_le_bytes(v.id) + u64_le_bytes(v.patient_id) + enc_str(v.problem) + u64_le_bytes(v.department_id)
}

pub open spec fn consultation_encodable(v: ConsultationView) -> bool {
    str_encodable(v.problem)
}

pub open spec fn dec_consultation(b: Seq<u8>) -> Option<(ConsultationView, Seq<u8>)> {
    match dec_u64(b) {
        None => None,
        Some((id, b1)) =>
        match dec_u64(b1) {
            None => None,
            Some((patient_id, b2)) =>
            match dec_str(b2) {
                None => None,
                Some((problem, b3)) =>
                match dec_u64(b3) {
                    None => None,
                    Some((department_id, b4)) =>
                    Some((ConsultationView { id, patient_id, problem, department_id }, b4)),
                },
            },
        },
    }
}

pub open spec fn dec_consultation_exact(b: Seq<u8>) -> Option<ConsultationView> {
    match dec_consultation(b) {
        Some(p) => if p.1.len() == 0 {
            Some(p.0)
        } else {
            None
        },
        None => None,
    }
}

#[verifier::rlimit(50)]
#[verifier::spinoff_prover]
pub proof fn lemma_consultation_round_trip(v: ConsultationView, rest: Seq<u8>)
    requires
        consultation_encodable(v),
    ensures
        dec_consultation(enc_consultation(v) + rest) == Some((v, rest)),
{
    let c1 = u64_le_bytes(v.id);
    let c2 = u64_le_bytes(v.patient_id);
    let c3 = enc_str(v.problem);
    let c4 = u64_le_bytes(v.department_id);
    let r3 = c4 + rest;
    let r2 = c3 + r3;
    let r1 = c2 + r2;
    let b = enc_consultation(v) + rest;
    lemma_concat_associative(c1 + c2 + c3, c4, rest);
    lemma_concat_associative(c1 + c2, c3, r3);
    lemma_concat_associative(c1, c2, r2);
    assert(b == c1 + r1);
    lemma_u64_round_trip(v.id, r1);
    assert(dec_u64(b) == Some((v.id, r1)));
    lemma_u64_round_trip(v.patient_id, r2);
    assert(dec_u64(r1) == Some((v.patient_id, r2)));
    lemma_str_round_trip(v.problem, r3);
    assert(dec_str(r2) == Some((v.problem, r3)));
    lemma_u64_round_trip(v.department_id, rest);
    assert(dec_u64(r3) == Some((v.department_id, rest)));
}

/// Decoding an encoded consultation yields the same value again, exactly.
#[verifier::rlimit(50)]
#[verifier::spinoff_prover]
pub proof fn lemma_consultation_exact_round_trip(v: ConsultationView)
    requires
        consultation_encodable(v),
    ensures
        dec_consultation_exact(enc_consultation(v)) == Some(v),
{
    lemma_consultation_round_trip(v, Seq::empty());
    assert(enc_consultation(v) + Seq::<u8>::empty() =~= enc_consultation(v));
}

#[verifier::rlimit(50)]
#[verifier::spinoff_prover]
pub fn write_consultation(out: &mut Vec<u8>, x: &Consultation)
    ensures
        final(out)@ == old(out)@ + enc_consultation(x@),
        consultation_encodable(x@),
{
    write_u64(out, x.id);
    write_u64(out, x.patient_id);
    write_str(out, &x.problem);
    write_u64(out, x.department_id);
    proof {
        let v = x@;
        let c1 = u64_le_bytes(v.id);
        let c2 = u64_le_bytes(v.patient_id);
        let c3 = enc_str(v.problem);
        let c4 = u64_le_bytes(v.department_id);
        lemma_concat_associative(old(out)@, c1, c2);
        lemma_concat_associative(old(out)@, c1 + c2, c3);
        lemma_concat_associative(old(out)@, c1 + c2 + c3, c4);
    }
}

pub fn read_consultation(b: &Vec<u8>, pos: usize) -> (r: Option<(Consultation, usize)>)
    requires
        pos <= b@.len(),
    ensures
        (r matches Some(p) ==> pos <= p.1 <= b@.len() && dec_consultation(b@.skip(pos as int))
            == Some((p.0@, b@.skip(p.1 as int)))),
        r is None ==> dec_consultation(b@.skip(pos as int)) is None,
{
    match read_u64(b, pos) {
        None => None,
        Some((id, p1)) =>
        match read_u64(b, p1) {
            None => None,
            Some((patient_id, p2)) =>
            match read_str(b, p2) {
                None => None,
                Some((problem, p3)) =>
                match read_u64(b, p3) {
                    None => None,
                    Some((department_id, p4)) =>
                    Some((Consultation { id, patient_id, problem, department_id }, p4)),
                },
            },
        },
    }
}

pub fn encode_consultation(x: &Consultation) -> (r: Vec<u8>)
    ensures
        r@ == enc_consultation(x@),
        consultation_encodable(x@),
{
    let mut out: Vec<u8> = Vec::new();
    write_consultation(&mut out, x);
    assert(Seq::<u8>::empty() + enc_consultation(x@) =~= enc_consultation(x@));
    out
}

pub fn decode_consultation(b: &Vec<u8>) -> (r: Option<Consultation>)
    ensures
        (r matches Some(d) ==> dec_consultation_exact(b@) == Some(d@)),
        r is None ==> dec_consultation_exact(b@) is None,
{
    proof {
        assert(b@.skip(0) =~= b@);
    }
    match read_consultation(b, 0) {
        None => None,
        Some((d, p)) => {
            if p == b.len() {
                Some(d)
            } else {
                None
            }
        },
    }
}

// ---------------------------------------------------------------------------
// Chat.
// ---------------------------------------------------------------------------

pub open spec fn enc_chat(v: ChatView) -> Seq<u8> {
    u64_le_bytes(v.id) + u64_le_bytes(v.patient_id) + u64_le_bytes(v.doctor_id) + enc_str(v.message) + u64_le_bytes(v.timestamp)
}

pub open spec fn chat_encodable(v: ChatView) -> bool {
    str_encodable(v.message)
}

pub open spec fn dec_chat(b: Seq<u8>) -> Option<(ChatView, Seq<u8>)> {
    match dec_u64(b) {
        None => None,
        Some((id, b1)) =>
        match dec_u64(b1) {
            None => None,
            Some((patient_id, b2)) =>
            match dec_u64(b2) {
                None => None,
                Some((doctor_id, b3)) =>
                match dec_str(b3) {
                    None => None,
                    Some((message, b4)) =>
                    match dec_u64(b4) {
                        None => None,
                        Some((timestamp, b5)) =>
                        Some((ChatView { id, patient_id, doctor_id, message, timestamp }, b5)),
                    },
                },
            },
        },
    }
}

pub open spec fn dec_chat_exact(b: Seq<u8>) -> Option<ChatView> {
    match dec_chat(b) {
        Some(p) => if p.1.len() == 0 {
            Some(p.0)
        } else {
            None
        },
        None => None,
    }
}

#[verifier::rlimit(50)]
#[verifier::spinoff_prover]
pub proof fn lemma_chat_round_trip(v: ChatView, rest: Seq<u8>)
    requires
        chat_encodable(v),
    ensures
        dec_chat(enc_chat(v) + rest) == Some((v, rest)),
{
    let c1 = u64_le_bytes(v.id);
    let c2 = u64_le_bytes(v.patient_id);
    let c3 = u64_le_bytes(v.doctor_id);
    let c4 = enc_str(v.message);
    let c5 = u64_le_bytes(v.timestamp);
    let r4 = c5 + rest;
    let r3 = c4 + r4;
    let r2 = c3 + r3;
    let r1 = c2 + r2;
    let b = enc_chat(v) + rest;
    lemma_concat_associative(c1 + c2 + c3 + c4, c5, rest);
    lemma_concat_associative(c1 + c2 + c3, c4, r4);
    lemma_concat_associative(c1 + c2, c3, r3);
    lemma_concat_associative(c1, c2, r2);
    assert(b == c1 + r1);
    lemma_u64_round_trip(v.id, r1);
    assert(dec_u64(b) == Some((v.id, r1)));
    lemma_u64_round_trip(v.patient_id, r2);
    assert(dec_u64(r1) == Some((v.patient_id, r2)));
    lemma_u64_round_trip(v.doctor_id, r3);
    assert(dec_u64(r2) == Some((v.doctor_id, r3)));
    lemma_str_round_trip(v.message, r4);
    assert(dec_str(r3) == Some((v.message, r4)));
    lemma_u64_round_trip(v.timestamp, rest);
    assert(dec_u64(r4) == Some((v.timestamp, rest)));
}

/// Decoding an encoded chat yields the same value again, exactly.
#[verifier::rlimit(50)]
#[verifier::spinoff_prover]
pub proof fn lemma_chat_exact_round_trip(v: ChatView)
    requires
        chat_encodable(v),
    ensures
        dec_chat_exact(enc_chat(v)) == Some(v),
{
    lemma_chat_round_trip(v, Seq::empty());
    assert(enc_chat(v) + Seq::<u8>::empty() =~= enc_chat(v));
}

#[verifier::rlimit(50)]
#[verifier::spinoff_prover]
pub fn write_chat(out: &mut Vec<u8>, x: &Chat)
    ensures
        final(out)@ == old(out)@ + enc_chat(x@),
        chat_encodable(x@),
{
    write_u64(out, x.id);
    write_u64(out, x.patient_id);
    write_u64(out, x.doctor_id);
    write_str(out, &x.message);
    write_u64(out, x.timestamp);
    proof {
        let v = x@;
        let c1 = u64_le_bytes(v.id);
        let c2 = u64_le_bytes(v.patient_id);
        let c3 = u64_le_bytes(v.doctor_id);
        let c4 = enc_str(v.message);
        let c5 = u64_le_bytes(v.timestamp);
        lemma_concat_associative(old(out)@, c1, c2);
        lemma_concat_associative(old(out)@, c1 + c2, c3);
        lemma_concat_associative(old(out)@, c1 + c2 + c3, c4);
        lemma_concat_associative(old(out)@, c1 + c2 + c3 + c4, c5);
    }
}

pub fn read_chat(b: &Vec<u8>, pos: usize) -> (r: Option<(Chat, usize)>)
    requires
        pos <= b@.len(),
    ensures
        (r matches Some(p) ==> pos <= p.1 <= b@.len() && dec_chat(b@.skip(pos as int))
            == Some((p.0@, b@.skip(p.1 as int)))),
        r is None ==> dec_chat(b@.skip(pos as int)) is None,
{
    match read_u64(b, pos) {
        None => None,
        Some((id, p1)) =>
        match read_u64(b, p1) {
            None => None,
            Some((patient_id, p2)) =>
            match read_u64(b, p2) {
                None => None,
                Some((doctor_id, p3)) =>
                match read_str(b, p3) {
                    None => None,
                    Some((message, p4)) =>
                    match read_u64(b, p4) {
                        None => None,
                        Some((timestamp, p5)) =>
                        Some((Chat { id, patient_id, doctor_id, message, timestamp }, p5)),
                    },
                },
            },
        },
    }
}

pub fn encode_chat(x: &Chat) -> (r: Vec<u8>)
    ensures
        r@ == enc_chat(x@),
        chat_encodable(x@),
{
    let mut out: Vec<u8> = Vec::new();
    write_chat(&mut out, x);
    assert(Seq::<u8>::empty() + enc_chat(x@) =~= enc_chat(x@));
    out
}

pub fn decode_chat(b: &Vec<u8>) -> (r: Option<Chat>)
    ensures
        (r matches Some(d) ==> dec_chat_exact(b@) == Some(d@)),
        r is None ==> dec_chat_exact(b@) is None,
{
    proof {
        assert(b@.skip(0) =~= b@);
    }
    match read_chat(b, 0) {
        None => None,
        Some((d, p)) => {
            if p == b.len() {
                Some(d)
            } else {
                None
            }
        },
    }
}

// ---------------------------------------------------------------------------
// Appointment.
// ---------------------------------------------------------------------------

pub open spec fn enc_appointment(v: AppointmentView) -> Seq<u8> {
    u64_le_bytes(v.id) + u64_le_bytes(v.patient_id) + u64_le_bytes(v.doctor_id) + enc_str(v.reason) + u64_le_bytes(v.appointment_time) + enc_str(v.status) + enc_opt_str(v.video_link)
}

pub open spec fn appointment_encodable(v: AppointmentView) -> bool {
    &&& str_encodable(v.reason)
    &&& str_encodable(v.status)
    &&& opt_str_encodable(v.video_link)
}

pub open spec fn dec_appointment(b: Seq<u8>) -> Option<(AppointmentView, Seq<u8>)> {
    match dec_u64(b) {
        None => None,
        Some((id, b1)) =>
        match dec_u64(b1) {
            None => None,
            Some((patient_id, b2)) =>
            match dec_u64(b2) {
                None => None,
                Some((doctor_id, b3)) =>
                match dec_str(b3) {
                    None => None,
                    Some((reason, b4)) =>
                    match dec_u64(b4) {
                        None => None,
                        Some((appointment_time, b5)) =>
                        match dec_str(b5) {
                            None => None,
                            Some((status, b6)) =>
                            match dec_opt_str(b6) {
                                None => None,
                                Some((video_link, b7)) =>
                                Some((AppointmentView { id, patient_id, doctor_id, reason, appointment_time, status, video_link }, b7)),
                            },
                        },
                    },
                },
            },
        },
    }
}

pub open spec fn dec_appointment_exact(b: Seq<u8>) -> Option<AppointmentView> {
    match dec_appointment(b) {
        Some(p) => if p.1.len() == 0 {
            Some(p.0)
        } else {
            None
        },
        None => None,
    }
}

#[verifier::rlimit(50)]
#[verifier::spinoff_prover]
pub proof fn lemma_appointment_round_trip(v: AppointmentView, rest: Seq<u8>)
    requires
        appointment_encodable(v),
    ensures
        dec_appointment(enc_appointment(v) + rest) == Some((v, rest)),
{
    let c1 = u64_le_bytes(v.id);
    let c2 = u64_le_bytes(v.patient_id);
    let c3 = u64_le_bytes(v.doctor_id);
    let c4 = enc_str(v.reason);
    let c5 = u64_le_bytes(v.appointment_time);
    let c6 = enc_str(v.status);
    let c7 = enc_opt_str(v.video_link);
    let r6 = c7 + rest;
    let r5 = c6 + r6;
    let r4 = c5 + r5;
    let r3 = c4 + r4;
    let r2 = c3 + r3;
    let r1 = c2 + r2;
    let b = enc_appointment(v) + rest;
    lemma_concat_associative(c1 + c2 + c3 + c4 + c5 + c6, c7, rest);
    lemma_concat_associative(c1 + c2 + c3 + c4 + c5, c6, r6);
    lemma_concat_associative(c1 + c2 + c3 + c4, c5, r5);
    lemma_concat_associative(c1 + c2 + c3, c4, r4);
    lemma_concat_associative(c1 + c2, c3, r3);
    lemma_concat_associative(c1, c2, r2);
    assert(b == c1 + r1);
    lemma_u64_round_trip(v.id, r1);
    assert(dec_u64(b) == Some((v.id, r1)));
    lemma_u64_round_trip(v.patient_id, r2);
    assert(dec_u64(r1) == Some((v.patient_id, r2)));
    lemma_u64_round_trip(v.doctor_id, r3);
    assert(dec_u64(r2) == Some((v.doctor_id, r3)));
    lemma_str_round_trip(v.reason, r4);
    assert(dec_str(r3) == Some((v.reason, r4)));
    lemma_u64_round_trip(v.appointment_time, r5);
    assert(dec_u64(r4) == Some((v.appointment_time, r5)));
    lemma_str_round_trip(v.status, r6);
    assert(dec_str(r5) == Some((v.status, r6)));
    lemma_opt_str_round_trip(v.video_link, rest);
    assert(dec_opt_str(r6) == Some((v.video_link, rest)));
}

/// Decoding an encoded appointment yields the same value again, exactly.
#[verifier::rlimit(50)]
#[verifier::spinoff_prover]
pub proof fn lemma_appointment_exact_round_trip(v: AppointmentView)
    requires
        appointment_encodable(v),
    ensures
        dec_appointment_exact(enc_appointment(v)) == Some(v),
{
    lemma_appointment_round_trip(v, Seq::empty());
    assert(enc_appointment(v) + Seq::<u8>::empty() =~= enc_appointment(v));
}

#[verifier::rlimit(50)]
#[verifier::spinoff_prover]
pub fn write_appointment(out: &mut Vec<u8>, x: &Appointment)
    ensures
        final(out)@ == old(out)@ + enc_appointment(x@),
        appointment_encodable(x@),
{
    write_u64(out, x.id);
    write_u64(out, x.patient_id);
    write_u64(out, x.doctor_id);
    write_str(out, &x.reason);
    write_u64(out, x.appointment_time);
    write_str(out, &x.status);
    write_opt_str(out, &x.video_link);
    proof {
        let v = x@;
        let c1 = u64_le_bytes(v.id);
        let c2 = u64_le_bytes(v.patient_id);
        let c3 = u64_le_bytes(v.doctor_id);
        let c4 = enc_str(v.reason);
        let c5 = u64_le_bytes(v.appointment_time);
        let c6 = enc_str(v.status);
        let c7 = enc_opt_str(v.video_link);
        lemma_concat_associative(old(out)@, c1, c2);
        lemma_concat_associative(old(out)@, c1 + c2, c3);
        lemma_concat_associative(old(out)@, c1 + c2 + c3, c4);
        lemma_concat_associative(old(out)@, c1 + c2 + c3 + c4, c5);
        lemma_concat_associative(old(out)@, c1 + c2 + c3 + c4 + c5, c6);
        lemma_concat_associative(old(out)@, c1 + c2 + c3 + c4 + c5 + c6, c7);
    }
}

pub fn read_appointment(b: &Vec<u8>, pos: usize) -> (r: Option<(Appointment, usize)>)
    requires
        pos <= b@.len(),
    ensures
        (r matches Some(p) ==> pos <= p.1 <= b@.len() && dec_appointment(b@.skip(pos as int))
            == Some((p.0@, b@.skip(p.1 as int)))),
        r is None ==> dec_appointment(b@.skip(pos as int)) is None,
{
    match read_u64(b, pos) {
        None => None,
        Some((id, p1)) =>
        match read_u64(b, p1) {
            None => None,
            Some((patient_id, p2)) =>
            match read_u64(b, p2) {
                None => None,
                Some((doctor_id, p3)) =>
                match read_str(b, p3) {
                    None => None,
                    Some((reason, p4)) =>
                    match read_u64(b, p4) {
                        None => None,
                        Some((appointment_time, p5)) =>
                        match read_str(b, p5) {
                            None => None,
                            Some((status, p6)) =>
                            match read_opt_str(b, p6) {
                                None => None,
                                Some((video_link, p7)) =>
                                Some((Appointment { id, patient_id, doctor_id, reason, appointment_time, status, video_link }, p7)),
                            },
                        },
                    },
                },
            },
        },
    }
}

pub fn encode_appointment(x: &Appointment) -> (r: Vec<u8>)
    ensures
        r@ == enc_appointment(x@),
        appointment_encodable(x@),
{
    let mut out: Vec<u8> = Vec::new();
    write_appointment(&mut out, x);
    assert(Seq::<u8>::empty() + enc_appointment(x@) =~= enc_appointment(x@));
    out
}

pub fn decode_appointment(b: &Vec<u8>) -> (r: Option<Appointment>)
    ensures
        (r matches Some(d) ==> dec_appointment_exact(b@) == Some(d@)),
        r is None ==> dec_appointment_exact(b@) is None,
{
    proof {
        assert(b@.skip(0) =~= b@);
    }
    match read_appointment(b, 0) {
        None => None,
        Some((d, p)) => {
            if p == b.len() {
                Some(d)
            } else {
                None
            }
        },
    }
}

// ---------------------------------------------------------------------------
// Prescription.
// ---------------------------------------------------------------------------

pub open spec fn enc_prescription(v: PrescriptionView) -> Seq<u8> {
    u64_le_bytes(v.id) + u64_le_bytes(v.patient_id) + u64_le_bytes(v.doctor_id) + enc_str_list(v.medications) + enc_str(v.instructions) + u64_le_bytes(v.issued_at)
}

pub open spec fn prescription_encodable(v: PrescriptionView) -> bool {
    str_list_encodable(v.medications) && str_encodable(v.instructions)
}

pub open spec fn dec_prescription(b: Seq<u8>) -> Option<(PrescriptionView, Seq<u8>)> {
    match dec_u64(b) {
        None => None,
        Some((id, b1)) =>
        match dec_u64(b1) {
            None => None,
            Some((patient_id, b2)) =>
            match dec_u64(b2) {
                None => None,
                Some((doctor_id, b3)) =>
                match dec_str_list(b3) {
                    None => None,
                    Some((medications, b4)) =>
                    match dec_str(b4) {
                        None => None,
                        Some((instructions, b5)) =>
                        match dec_u64(b5) {
                            None => None,
                            Some((issued_at, b6)) =>
                            Some((PrescriptionView { id, patient_id, doctor_id, medications, instructions, issued_at }, b6)),
                        },
                    },
                },
            },
        },
    }
}

pub open spec fn dec_prescription_exact(b: Seq<u8>) -> Option<PrescriptionView> {
    match dec_prescription(b) {
        Some(p) => if p.1.len() == 0 {
            Some(p.0)
        } else {
            None
        },
        None => None,
    }
}

#[verifier::rlimit(50)]
#[verifier::spinoff_prover]
pub proof fn lemma_prescription_round_trip(v: PrescriptionView, rest: Seq<u8>)
    requires
        prescription_encodable(v),
    ensures
        dec_prescription(enc_prescription(v) + rest) == Some((v, rest)),
{
    let c1 = u64_le_bytes(v.id);
    let c2 = u64_le_bytes(v.patient_id);
    let c3 = u64_le_bytes(v.doctor_id);
    let c4 = enc_str_list(v.medications);
    let c5 = enc_str(v.instructions);
    let c6 = u64_le_bytes(v.issued_at);
    let r5 = c6 + rest;
    let r4 = c5 + r5;
    let r3 = c4 + r4;
    let r2 = c3 + r3;
    let r1 = c2 + r2;
    let b = enc_prescription(v) + rest;
    lemma_concat_associative(c1 + c2 + c3 + c4 + c5, c6, rest);
    lemma_concat_associative(c1 + c2 + c3 + c4, c5, r5);
    lemma_concat_associative(c1 + c2 + c3, c4, r4);
    lemma_concat_associative(c1 + c2, c3, r3);
    lemma_concat_associative(c1, c2, r2);
    assert(b == c1 + r1);
    lemma_u64_round_trip(v.id, r1);
    assert(dec_u64(b) == Some((v.id, r1)));
    lemma_u64_round_trip(v.patient_id, r2);
    assert(dec_u64(r1) == Some((v.patient_id, r2)));
    lemma_u64_round_trip(v.doctor_id, r3);
    assert(dec_u64(r2) == Some((v.doctor_id, r3)));
    lemma_str_list_round_trip(v.medications, r4);
    assert(dec_str_list(r3) == Some((v.medications, r4)));
    lemma_str_round_trip(v.instructions, r5);
    assert(dec_str(r4) == Some((v.instructions, r5)));
    lemma_u64_round_trip(v.issued_at, rest);
    assert(dec_u64(r5) == Some((v.issued_at, rest)));
}

/// Decoding an encoded prescription yields the same value again, exactly.
#[verifier::rlimit(50)]
#[verifier::spinoff_prover]
pub proof fn lemma_prescription_exact_round_trip(v: PrescriptionView)
    requires
        prescription_encodable(v),
    ensures
        dec_prescription_exact(enc_prescription(v)) == Some(v),
{
    lemma_prescription_round_trip(v, Seq::empty());
    assert(enc_prescription(v) + Seq::<u8>::empty() =~= enc_prescription(v));
}

#[verifier::rlimit(50)]
#[verifier::spinoff_prover]
pub fn write_prescription(out: &mut Vec<u8>, x: &Prescription)
    ensures
        final(out)@ == old(out)@ + enc_prescription(x@),
        prescription_encodable(x@),
{
    write_u64(out, x.id);
    write_u64(out, x.patient_id);
    write_u64(out, x.doctor_id);
    write_strs(out, &x.medications);
    write_str(out, &x.instructions);
    write_u64(out, x.issued_at);
    proof {
        let v = x@;
        let c1 = u64_le_bytes(v.id);
        let c2 = u64_le_bytes(v.patient_id);
        let c3 = u64_le_bytes(v.doctor_id);
        let c4 = enc_str_list(v.medications);
        let c5 = enc_str(v.instructions);
        let c6 = u64_le_bytes(v.issued_at);
        lemma_concat_associative(old(out)@, c1, c2);
        lemma_concat_associative(old(out)@, c1 + c2, c3);
        lemma_concat_associative(old(out)@, c1 + c2 + c3, c4);
        lemma_concat_associative(old(out)@, c1 + c2 + c3 + c4, c5);
        lemma_concat_associative(old(out)@, c1 + c2 + c3 + c4 + c5, c6);
    }
}

pub fn read_prescription(b: &Vec<u8>, pos: usize) -> (r: Option<(Prescription, usize)>)
    requires
        pos <= b@.len(),
    ensures
        (r matches Some(p) ==> pos <= p.1 <= b@.len() && dec_prescription(b@.skip(pos as int))
            == Some((p.0@, b@.skip(p.1 as int)))),
        r is None ==> dec_prescription(b@.skip(pos as int)) is None,
{
    match read_u64(b, pos) {
        None => None,
        Some((id, p1)) =>
        match read_u64(b, p1) {
            None => None,
            Some((patient_id, p2)) =>
            match read_u64(b, p2) {
                None => None,
                Some((doctor_id, p3)) =>
                match read_strs(b, p3) {
                    None => None,
                    Some((medications, p4)) =>
                    match read_str(b, p4) {
                        None => None,
                        Some((instructions, p5)) =>
                        match read_u64(b, p5) {
                            None => None,
                            Some((issued_at, p6)) =>
                            Some((Prescription { id, patient_id, doctor_id, medications, instructions, issued_at }, p6)),
                        },
                    },
                },
            },
        },
    }
}

pub fn encode_prescription(x: &Prescription) -> (r: Vec<u8>)
    ensures
        r@ == enc_prescription(x@),
        prescription_encodable(x@),
{
    let mut out: Vec<u8> = Vec::new();
    write_prescription(&mut out, x);
    assert(Seq::<u8>::empty() + enc_prescription(x@) =~= enc_prescription(x@));
    out
}

pub fn decode_prescription(b: &Vec<u8>) -> (r: Option<Prescription>)
    ensures
        (r matches Some(d) ==> dec_prescription_exact(b@) == Some(d@)),
        r is None ==> dec_prescription_exact(b@) is None,
{
    proof {
        assert(b@.skip(0) =~= b@);
    }
    match read_prescription(b, 0) {
        None => None,
        Some((d, p)) => {
            if p == b.len() {
                Some(d)
            } else {
                None
            }
        },
    }
}

// ---------------------------------------------------------------------------
// Lists of prescriptions, a nested component of the medical record.
// ---------------------------------------------------------------------------

pub open spec fn enc_presc_items(l: Seq<PrescriptionView>) -> Seq<u8>
    decreases l.len(),
{
    if l.len() == 0 {
        Seq::empty()
    } else {
        enc_prescription(l[0]) + enc_presc_items(l.drop_first())
    }
}

pub open spec fn enc_presc_list(l: Seq<PrescriptionView>) -> Seq<u8> {
    u64_le_bytes(l.len() as u64) + enc_presc_items(l)
}

/// A prescription list whose count and items survive the stored form.
pub open spec fn presc_list_encodable(l: Seq<PrescriptionView>) -> bool {
    &&& l.len() <= usize::MAX
    &&& forall|i: int| 0 <= i < l.len() ==> prescription_encodable(#[trigger] l[i])
}

pub open spec fn dec_presc_items(b: Seq<u8>, n: nat) -> Option<(Seq<PrescriptionView>, Seq<u8>)>
    decreases n,
{
    if n == 0 {
        Some((Seq::empty(), b))
    } else {
        match dec_prescription(b) {
            Some(p) => match dec_presc_items(p.1, (n - 1) as nat) {
                Some(q) => Some((seq![p.0] + q.0, q.1)),
                None => None,
            },
            None => None,
        }
    }
}

pub open spec fn dec_presc_list(b: Seq<u8>) -> Option<(Seq<PrescriptionView>, Seq<u8>)> {
    match dec_u64(b) {
        Some(p) => {
            if p.0 <= usize::MAX as u64 {
                dec_presc_items(p.1, p.0 as nat)
            } else {
                None
            }
        },
        None => None,
    }
}

pub proof fn lemma_enc_presc_items_push(l: Seq<PrescriptionView>, s: PrescriptionView)
    ensures
        enc_presc_items(l.push(s)) == enc_presc_items(l) + enc_prescription(s),
    decreases l.len(),
{
    if l.len() == 0 {
        let p = l.push(s);
        assert(p[0] == s);
        assert(p.drop_first() =~= Seq::<PrescriptionView>::empty());
        assert(enc_presc_items(p.drop_first()) == Seq::<u8>::empty());
        assert(enc_presc_items(p) == enc_prescription(s) + Seq::<u8>::empty());
        assert(enc_prescription(s) + Seq::<u8>::empty() =~= Seq::<u8>::empty() + enc_prescription(
            s,
        ));
    } else {
        let t = l.drop_first();
        assert(l.push(s).drop_first() =~= t.push(s));
        lemma_enc_presc_items_push(t, s);
        assert(l.push(s)[0] == l[0]);
        assert(enc_presc_items(l.push(s)) == enc_prescription(l[0]) + (enc_presc_items(t)
            + enc_prescription(s)));
        lemma_concat_associative(enc_prescription(l[0]), enc_presc_items(t), enc_prescription(s));
    }
}

#[verifier::rlimit(50)]
#[verifier::spinoff_prover]
pub proof fn lemma_presc_items_round_trip(l: Seq<PrescriptionView>, rest: Seq<u8>)
    requires
        forall|i: int| 0 <= i < l.len() ==> prescription_encodable(#[trigger] l[i]),
    ensures
        dec_presc_items(enc_presc_items(l) + rest, l.len()) == Some((l, rest)),
    decreases l.len(),
{
    if l.len() == 0 {
        assert(enc_presc_items(l) + rest =~= rest);
        assert(l =~= Seq::<PrescriptionView>::empty());
    } else {
        let tail = l.drop_first();
        assert(enc_presc_items(l) + rest =~= enc_prescription(l[0]) + (enc_presc_items(tail)
            + rest));
        lemma_prescription_round_trip(l[0], enc_presc_items(tail) + rest);
        lemma_presc_items_round_trip(tail, rest);
        assert(seq![l[0]] + tail =~= l);
    }
}

#[verifier::rlimit(50)]
#[verifier::spinoff_prover]
pub proof fn lemma_presc_list_round_trip(l: Seq<PrescriptionView>, rest: Seq<u8>)
    requires
        presc_list_encodable(l),
    ensures
        dec_presc_list(enc_presc_list(l) + rest) == Some((l, rest)),
{
    lemma_concat_associative(u64_le_bytes(l.len() as u64), enc_presc_items(l), rest);
    lemma_u64_round_trip(l.len() as u64, enc_presc_items(l) + rest);
    lemma_presc_items_round_trip(l, rest);
}

#[verifier::rlimit(50)]
#[verifier::spinoff_prover]
pub fn write_prescs(out: &mut Vec<u8>, v: &Vec<Prescription>)
    ensures
        final(out)@ == old(out)@ + enc_presc_list(v.deep_view()),
        presc_list_encodable(v.deep_view()),
{
    let n = v.len();
    write_u64(out, n as u64);
    let mut i: usize = 0;
    while i < n
        invariant
            i <= n,
            n == v@.len(),
            out@ == old(out)@ + u64_le_bytes(v.deep_view().len() as u64) + enc_presc_items(
                v.deep_view().take(i as int),
            ),
            forall|j: int| 0 <= j < i ==> prescription_encodable(#[trigger] v.deep_view()[j]),
        decreases n - i,
    {
        write_prescription(out, &v[i]);
        proof {
            lemma_enc_presc_items_push(v.deep_view().take(i as int), v@[i as int]@);
            assert(v.deep_view().take(i as int).push(v@[i as int]@) =~= v.deep_view().take(
                i as int + 1,
            ));
            lemma_concat_associative(
                old(out)@ + u64_le_bytes(v.deep_view().len() as u64),
                enc_presc_items(v.deep_view().take(i as int)),
                enc_prescription(v@[i as int]@),
            );
        }
        i = i + 1;
    }
    proof {
        assert(v.deep_view().take(n as int) =~= v.deep_view());
        assert(old(out)@ + u64_le_bytes(v.deep_view().len() as u64) + enc_presc_items(v.deep_view())
            =~= old(out)@ + enc_presc_list(v.deep_view()));
    }
}

pub fn read_prescs(b: &Vec<u8>, pos: usize) -> (r: Option<(Vec<Prescription>, usize)>)
    requires
        pos <= b@.len(),
    ensures
        (r matches Some(p) ==> pos <= p.1 <= b@.len() && dec_presc_list(b@.skip(pos as int))
            == Some((p.0.deep_view(), b@.skip(p.1 as int)))),
        r is None ==> dec_presc_list(b@.skip(pos as int)) is None,
{
    match read_u64(b, pos) {
        None => None,
        Some((count, p_start)) => {
            if count > usize::MAX as u64 {
                return None;
            }
            let n = count as usize;
            let mut acc: Vec<Prescription> = Vec::new();
            let mut p: usize = p_start;
            let mut i: usize = 0;
            while i < n
                invariant
                    i <= n,
                    p_start <= p <= b@.len(),
                    acc@.len() == i,
                    dec_presc_items(b@.skip(p_start as int), n as nat) == (match dec_presc_items(
                        b@.skip(p as int),
                        (n - i) as nat,
                    ) {
                        Some(q) => Some((acc.deep_view() + q.0, q.1)),
                        None => None,
                    }),
                decreases n - i,
            {
                match read_prescription(b, p) {
                    None => {
                        return None;
                    },
                    Some((s, p2)) => {
                        proof {
                            if let Some(q2) = dec_presc_items(
                                b@.skip(p2 as int),
                                (n - i - 1) as nat,
                            ) {
                                assert(acc.deep_view() + (seq![s@] + q2.0) =~= acc.deep_view().push(
                                    s@,
                                ) + q2.0);
                            }
                        }
                        let ghost old_acc = acc;
                        acc.push(s);
                        proof {
                            assert(acc.deep_view() =~= old_acc.deep_view().push(
                                old_acc@.push(s)[i as int]@,
                            ));
                        }
                        p = p2;
                        i = i + 1;
                    },
                }
            }
            proof {
                assert(acc.deep_view() + Seq::<PrescriptionView>::empty() =~= acc.deep_view());
            }
            Some((acc, p))
        },
    }
}


// ---------------------------------------------------------------------------
// Payment.
// ---------------------------------------------------------------------------

pub open spec fn enc_payment(v: PaymentView) -> Seq<u8> {
    u64_le_bytes(v.id) + u64_le_bytes(v.appointment_id) + u64_le_bytes(v.patient_id) + u64_le_bytes(v.amount) + enc_str(v.status) + enc_str(v.payment_method)
}

pub open spec fn payment_encodable(v: PaymentView) -> bool {
    str_encodable(v.status) && str_encodable(v.payment_method)
}

pub open spec fn dec_payment(b: Seq<u8>) -> Option<(PaymentView, Seq<u8>)> {
    match dec_u64(b) {
        None => None,
        Some((id, b1)) =>
        match dec_u64(b1) {
            None => None,
            Some((appointment_id, b2)) =>
            match dec_u64(b2) {
                None => None,
                Some((patient_id, b3)) =>
                match dec_u64(b3) {
                    None => None,
                    Some((amount, b4)) =>
                    match dec_str(b4) {
                        None => None,
                        Some((status, b5)) =>
                        match dec_str(b5) {
                            None => None,
                            Some((payment_method, b6)) =>
                            Some((PaymentView { id, appointment_id, patient_id, amount, status, payment_method }, b6)),
                        },
                    },
                },
            },
        },
    }
}

pub open spec fn dec_payment_exact(b: Seq<u8>) -> Option<PaymentView> {
    match dec_payment(b) {
        Some(p) => if p.1.len() == 0 {
            Some(p.0)
        } else {
            None
        },
        None => None,
    }
}

#[verifier::rlimit(50)]
#[verifier::spinoff_prover]
pub proof fn lemma_payment_round_trip(v: PaymentView, rest: Seq<u8>)
    requires
        payment_encodable(v),
    ensures
        dec_payment(enc_payment(v) + rest) == Some((v, rest)),
{
    let c1 = u64_le_bytes(v.id);
    let c2 = u64_le_bytes(v.appointment_id);
    let c3 = u64_le_bytes(v.patient_id);
    let c4 = u64_le_bytes(v.amount);
    let c5 = enc_str(v.status);
    let c6 = enc_str(v.payment_method);
    let r5 = c6 + rest;
    let r4 = c5 + r5;
    let r3 = c4 + r4;
    let r2 = c3 + r3;
    let r1 = c2 + r2;
    let b = enc_payment(v) + rest;
    lemma_concat_associative(c1 + c2 + c3 + c4 + c5, c6, rest);
    lemma_concat_associative(c1 + c2 + c3 + c4, c5, r5);
    lemma_concat_associative(c1 + c2 + c3, c4, r4);
    lemma_concat_associative(c1 + c2, c3, r3);
    lemma_concat_associative(c1, c2, r2);
    assert(b == c1 + r1);
    lemma_u64_round_trip(v.id, r1);
    assert(dec_u64(b) == Some((v.id, r1)));
    lemma_u64_round_trip(v.appointment_id, r2);
    assert(dec_u64(r1) == Some((v.appointment_id, r2)));
    lemma_u64_round_trip(v.patient_id, r3);
    assert(dec_u64(r2) == Some((v.patient_id, r3)));
    lemma_u64_round_trip(v.amount, r4);
    assert(dec_u64(r3) == Some((v.amount, r4)));
    lemma_str_round_trip(v.status, r5);
    assert(dec_str(r4) == Some((v.status, r5)));
    lemma_str_round_trip(v.payment_method, rest);
    assert(dec_str(r5) == Some((v.payment_method, rest)));
}

/// Decoding an encoded payment yields the same value again, exactly.
#[verifier::rlimit(50)]
#[verifier::spinoff_prover]
pub proof fn lemma_payment_exact_round_trip(v: PaymentView)
    requires
        payment_encodable(v),
    ensures
        dec_payment_exact(enc_payment(v)) == Some(v),
{
    lemma_payment_round_trip(v, Seq::empty());
    assert(enc_payment(v) + Seq::<u8>::empty() =~= enc_payment(v));
}

#[verifier::rlimit(50)]
#[verifier::spinoff_prover]
pub fn write_payment(out: &mut Vec<u8>, x: &Payment)
    ensures
        final(out)@ == old(out)@ + enc_payment(x@),
        payment_encodable(x@),
{
    write_u64(out, x.id);
    write_u64(out, x.appointment_id);
    write_u64(out, x.patient_id);
    write_u64(out, x.amount);
    write_str(out, &x.status);
    write_str(out, &x.payment_method);
    proof {
        let v = x@;
        let c1 = u64_le_bytes(v.id);
        let c2 = u64_le_bytes(v.appointment_id);
        let c3 = u64_le_bytes(v.patient_id);
        let c4 = u64_le_bytes(v.amount);
        let c5 = enc_str(v.status);
        let c6 = enc_str(v.payment_method);
        lemma_concat_associative(old(out)@, c1, c2);
        lemma_concat_associative(old(out)@, c1 + c2, c3);
        lemma_concat_associative(old(out)@, c1 + c2 + c3, c4);
        lemma_concat_associative(old(out)@, c1 + c2 + c3 + c4, c5);
        lemma_concat_associative(old(out)@, c1 + c2 + c3 + c4 + c5, c6);
    }
}

pub fn read_payment(b: &Vec<u8>, pos: usize) -> (r: Option<(Payment, usize)>)
    requires
        pos <= b@.len(),
    ensures
        (r matches Some(p) ==> pos <= p.1 <= b@.len() && dec_payment(b@.skip(pos as int))
            == Some((p.0@, b@.skip(p.1 as int)))),
        r is None ==> dec_payment(b@.skip(pos as int)) is None,
{
    match read_u64(b, pos) {
        None => None,
        Some((id, p1)) =>
        match read_u64(b, p1) {
            None => None,
            Some((appointment_id, p2)) =>
            match read_u64(b, p2) {
                None => None,
                Some((patient_id, p3)) =>
                match read_u64(b, p3) {
                    None => None,
                    Some((amount, p4)) =>
                    match read_str(b, p4) {
                        None => None,
                        Some((status, p5)) =>
                        match read_str(b, p5) {
                            None => None,
                            Some((payment_method, p6)) =>
                            Some((Payment { id, appointment_id, patient_id, amount, status, payment_method }, p6)),
                        },
                    },
                },
            },
        },
    }
}

pub fn encode_payment(x: &Payment) -> (r: Vec<u8>)
    ensures
        r@ == enc_payment(x@),
        payment_encodable(x@),
{
    let mut out: Vec<u8> = Vec::new();
    write_payment(&mut out, x);
    assert(Seq::<u8>::empty() + enc_payment(x@) =~= enc_payment(x@));
    out
}

pub fn decode_payment(b: &Vec<u8>) -> (r: Option<Payment>)
    ensures
        (r matches Some(d) ==> dec_payment_exact(b@) == Some(d@)),
        r is None ==> dec_payment_exact(b@) is None,
{
    proof {
        assert(b@.skip(0) =~= b@);
    }
    match read_payment(b, 0) {
        None => None,
        Some((d, p)) => {
            if p == b.len() {
                Some(d)
            } else {
                None
            }
        },
    }
}

// ---------------------------------------------------------------------------
// MedicalRecord.
// ---------------------------------------------------------------------------

pub open spec fn enc_medical_record(v: MedicalRecordView) -> Seq<u8> {
    u64_le_bytes(v.id) + u64_le_bytes(v.patient_id) + u64_le_bytes(v.doctor_id) + enc_presc_list(v.prescriptions) + enc_str_list(v.lab_results) + enc_str(v.diagnosis) + enc_str(v.treatment) + u64_le_bytes(v.created_at)
}

pub open spec fn medical_record_encodable(v: MedicalRecordView) -> bool {
    &&& presc_list_encodable(v.prescriptions)
    &&& str_list_encodable(v.lab_results)
    &&& str_encodable(v.diagnosis)
    &&& str_encodable(v.treatment)
}

pub open spec fn dec_medical_record(b: Seq<u8>) -> Option<(MedicalRecordView, Seq<u8>)> {
    match dec_u64(b) {
        None => None,
        Some((id, b1)) =>
        match dec_u64(b1) {
            None => None,
            Some((patient_id, b2)) =>
            match dec_u64(b2) {
                None => None,
                Some((doctor_id, b3)) =>
                match dec_presc_list(b3) {
                    None => None,
                    Some((prescriptions, b4)) =>
                    match dec_str_list(b4) {
                        None => None,
                        Some((lab_results, b5)) =>
                        match dec_str(b5) {
                            None => None,
                            Some((diagnosis, b6)) =>
                            match dec_str(b6) {
                                None => None,
                                Some((treatment, b7)) =>
                                match dec_u64(b7) {
                                    None => None,
                                    Some((created_at, b8)) =>
                                    Some((MedicalRecordView { id, patient_id, doctor_id, prescriptions, lab_results, diagnosis, treatment, created_at }, b8)),
                                },
                            },
                        },
                    },
                },
            },
        },
    }
}

pub open spec fn dec_medical_record_exact(b: Seq<u8>) -> Option<MedicalRecordView> {
    match dec_medical_record(b) {
        Some(p) => if p.1.len() == 0 {
            Some(p.0)
        } else {
            None
        },
        None => None,
    }
}

#[verifier::rlimit(50)]
#[verifier::spinoff_prover]
pub proof fn lemma_medical_record_round_trip(v: MedicalRecordView, rest: Seq<u8>)
    requires
        medical_record_encodable(v),
    ensures
        dec_medical_record(enc_medical_record(v) + rest) == Some((v, rest)),
{
    let c1 = u64_le_bytes(v.id);
    let c2 = u64_le_bytes(v.patient_id);
    let c3 = u64_le_bytes(v.doctor_id);
    let c4 = enc_presc_list(v.prescriptions);
    let c5 = enc_str_list(v.lab_results);
    let c6 = enc_str(v.diagnosis);
    let c7 = enc_str(v.treatment);
    let c8 = u64_le_bytes(v.created_at);
    let r7 = c8 + rest;
    let r6 = c7 + r7;
    let r5 = c6 + r6;
    let r4 = c5 + r5;
    let r3 = c4 + r4;
    let r2 = c3 + r3;
    let r1 = c2 + r2;
    let b = enc_medical_record(v) + rest;
    lemma_concat_associative(c1 + c2 + c3 + c4 + c5 + c6 + c7, c8, rest);
    lemma_concat_associative(c1 + c2 + c3 + c4 + c5 + c6, c7, r7);
    lemma_concat_associative(c1 + c2 + c3 + c4 + c5, c6, r6);
    lemma_concat_associative(c1 + c2 + c3 + c4, c5, r5);
    lemma_concat_associative(c1 + c2 + c3, c4, r4);
    lemma_concat_associative(c1 + c2, c3, r3);
    lemma_concat_associative(c1, c2, r2);
    assert(b == c1 + r1);
    lemma_u64_round_trip(v.id, r1);
    assert(dec_u64(b) == Some((v.id, r1)));
    lemma_u64_round_trip(v.patient_id, r2);
    assert(dec_u64(r1) == Some((v.patient_id, r2)));
    lemma_u64_round_trip(v.doctor_id, r3);
    assert(dec_u64(r2) == Some((v.doctor_id, r3)));
    lemma_presc_list_round_trip(v.prescriptions, r4);
    assert(dec_presc_list(r3) == Some((v.prescriptions, r4)));
    lemma_str_list_round_trip(v.lab_results, r5);
    assert(dec_str_list(r4) == Some((v.lab_results, r5)));
    lemma_str_round_trip(v.diagnosis, r6);
    assert(dec_str(r5) == Some((v.diagnosis, r6)));
    lemma_str_round_trip(v.treatment, r7);
    assert(dec_str(r6) == Some((v.treatment, r7)));
    lemma_u64_round_trip(v.created_at, rest);
    assert(dec_u64(r7) == Some((v.created_at, rest)));
}

/// Decoding an encoded medical record yields the same value again, exactly.
#[verifier::rlimit(50)]
#[verifier::spinoff_prover]
pub proof fn lemma_medical_record_exact_round_trip(v: MedicalRecordView)
    requires
        medical_record_encodable(v),
    ensures
        dec_medical_record_exact(enc_medical_record(v)) == Some(v),
{
    lemma_medical_record_round_trip(v, Seq::empty());
    assert(enc_medical_record(v) + Seq::<u8>::empty() =~= enc_medical_record(v));
}

#[verifier::rlimit(50)]
#[verifier::spinoff_prover]
pub fn write_medical_record(out: &mut Vec<u8>, x: &MedicalRecord)
    ensures
        final(out)@ == old(out)@ + enc_medical_record(x@),
        medical_record_encodable(x@),
{
    write_u64(out, x.id);
    write_u64(out, x.patient_id);
    write_u64(out, x.doctor_id);
    write_prescs(out, &x.prescriptions);
    write_strs(out, &x.lab_results);
    write_str(out, &x.diagnosis);
    write_str(out, &x.treatment);
    write_u64(out, x.created_at);
    proof {
        let v = x@;
        let c1 = u64_le_bytes(v.id);
        let c2 = u64_le_bytes(v.patient_id);
        let c3 = u64_le_bytes(v.doctor_id);
        let c4 = enc_presc_list(v.prescriptions);
        let c5 = enc_str_list(v.lab_results);
        let c6 = enc_str(v.diagnosis);
        let c7 = enc_str(v.treatment);
        let c8 = u64_le_bytes(v.created_at);
        lemma_concat_associative(old(out)@, c1, c2);
        lemma_concat_associative(old(out)@, c1 + c2, c3);
        lemma_concat_associative(old(out)@, c1 + c2 + c3, c4);
        lemma_concat_associative(old(out)@, c1 + c2 + c3 + c4, c5);
        lemma_concat_associative(old(out)@, c1 + c2 + c3 + c4 + c5, c6);
        lemma_concat_associative(old(out)@, c1 + c2 + c3 + c4 + c5 + c6, c7);
        lemma_concat_associative(old(out)@, c1 + c2 + c3 + c4 + c5 + c6 + c7, c8);
    }
}

pub fn read_medical_record(b: &Vec<u8>, pos: usize) -> (r: Option<(MedicalRecord, usize)>)
    requires
        pos <= b@.len(),
    ensures
        (r matches Some(p) ==> pos <= p.1 <= b@.len() && dec_medical_record(b@.skip(pos as int))
            == Some((p.0@, b@.skip(p.1 as int)))),
        r is None ==> dec_medical_record(b@.skip(pos as int)) is None,
{
    match read_u64(b, pos) {
        None => None,
        Some((id, p1)) =>
        match read_u64(b, p1) {
            None => None,
            Some((patient_id, p2)) =>
            match read_u64(b, p2) {
                None => None,
                Some((doctor_id, p3)) =>
                match read_prescs(b, p3) {
                    None => None,
                    Some((prescriptions, p4)) =>
                    match read_strs(b, p4) {
                        None => None,
                        Some((lab_results, p5)) =>
                        match read_str(b, p5) {
                            None => None,
                            Some((diagnosis, p6)) =>
                            match read_str(b, p6) {
                                None => None,
                                Some((treatment, p7)) =>
                                match read_u64(b, p7) {
                                    None => None,
                                    Some((created_at, p8)) =>
                                    Some((MedicalRecord { id, patient_id, doctor_id, prescriptions, lab_results, diagnosis, treatment, created_at }, p8)),
                                },
                            },
                        },
                    },
                },
            },
        },
    }
}

pub fn encode_medical_record(x: &MedicalRecord) -> (r: Vec<u8>)
    ensures
        r@ == enc_medical_record(x@),
        medical_record_encodable(x@),
{
    let mut out: Vec<u8> = Vec::new();
    write_medical_record(&mut out, x);
    assert(Seq::<u8>::empty() + enc_medical_record(x@) =~= enc_medical_record(x@));
    out
}

pub fn decode_medical_record(b: &Vec<u8>) -> (r: Option<MedicalRecord>)
    ensures
        (r matches Some(d) ==> dec_medical_record_exact(b@) == Some(d@)),
        r is None ==> dec_medical_record_exact(b@) is None,
{
    proof {
        assert(b@.skip(0) =~= b@);
    }
    match read_medical_record(b, 0) {
        None => None,
        Some((d, p)) => {
            if p == b.len() {
                Some(d)
            } else {
                None
            }
        },
    }
}

} // verus!
