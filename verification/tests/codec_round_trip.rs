//! Round-trip tests of the record codec: for every record type, decoding
//! an encoded record yields the record again, exactly.

use hospital_registry::record_codec::decode_appointment;
use hospital_registry::record_codec::decode_chat;
use hospital_registry::record_codec::decode_consultation;
use hospital_registry::record_codec::decode_department;
use hospital_registry::record_codec::decode_doctor;
use hospital_registry::record_codec::decode_medical_record;
use hospital_registry::record_codec::decode_patient;
use hospital_registry::record_codec::decode_payment;
use hospital_registry::record_codec::decode_prescription;
use hospital_registry::record_codec::encode_appointment;
use hospital_registry::record_codec::encode_chat;
use hospital_registry::record_codec::encode_consultation;
use hospital_registry::record_codec::encode_department;
use hospital_registry::record_codec::encode_doctor;
use hospital_registry::record_codec::encode_medical_record;
use hospital_registry::record_codec::encode_patient;
use hospital_registry::record_codec::encode_payment;
use hospital_registry::record_codec::encode_prescription;
use hospital_registry::record_codec::MAX_ENCODED_SIZE;
use hospital_registry::records::Appointment;
use hospital_registry::records::Chat;
use hospital_registry::records::Consultation;
use hospital_registry::records::Department;
use hospital_registry::records::Doctor;
use hospital_registry::records::EmergencyContact;
use hospital_registry::records::MedicalRecord;
use hospital_registry::records::Patient;
use hospital_registry::records::Payment;
use hospital_registry::records::Prescription;

fn sample_prescription() -> Prescription {
    Prescription {
        id: 31,
        patient_id: 7,
        doctor_id: 4,
        medications: vec!["ibuprofen".to_string(), "amoxicillin".to_string()],
        instructions: "twice a day after meals".to_string(),
        issued_at: 1_700_000_000,
    }
}

#[test]
fn department_round_trip() {
    let d = Department {
        id: 1,
        name: "Cardiology".to_string(),
        description: "Heart care".to_string(),
        created_at: 123_456,
    };
    assert_eq!(decode_department(&encode_department(&d)), Some(d));
}

#[test]
fn department_round_trip_keeps_unicode_text() {
    let d = Department {
        id: u64::MAX,
        name: "Kinderheilkunde München 北京".to_string(),
        description: "".to_string(),
        created_at: 0,
    };
    assert_eq!(decode_department(&encode_department(&d)), Some(d));
}

#[test]
fn doctor_round_trip() {
    let d = Doctor {
        id: 2,
        name: "Dr. Riviera".to_string(),
        department_id: 1,
        image: "riviera.png".to_string(),
        is_available: false,
    };
    assert_eq!(decode_doctor(&encode_doctor(&d)), Some(d));
}

#[test]
fn patient_round_trip() {
    let p = Patient {
        id: 3,
        name: "Alex Doe".to_string(),
        age: 44,
        gender: "other".to_string(),
        phone_number: "+1-555-0100".to_string(),
        email: "alex@example.com".to_string(),
        address: "12 Elm Street".to_string(),
        emergency_contact: EmergencyContact {
            name: "Sam Doe".to_string(),
            phone_number: "+1-555-0101".to_string(),
            relationship: "sibling".to_string(),
        },
        allergies: vec!["pollen".to_string(), "penicillin".to_string()],
        current_medications: vec![],
        medical_history: vec!["fracture".to_string()],
    };
    assert_eq!(decode_patient(&encode_patient(&p)), Some(p));
}

#[test]
fn consultation_round_trip() {
    let c = Consultation {
        id: 4,
        patient_id: 3,
        problem: "persistent cough".to_string(),
        department_id: 1,
    };
    assert_eq!(decode_consultation(&encode_consultation(&c)), Some(c));
}

#[test]
fn chat_round_trip() {
    let c = Chat {
        id: 5,
        patient_id: 3,
        doctor_id: 2,
        message: "see you at nine".to_string(),
        timestamp: 99,
    };
    assert_eq!(decode_chat(&encode_chat(&c)), Some(c));
}

#[test]
fn appointment_round_trip_without_video_link() {
    let a = Appointment {
        id: 6,
        patient_id: 3,
        doctor_id: 2,
        reason: "follow-up".to_string(),
        appointment_time: 1_700_000_500,
        status: "scheduled".to_string(),
        video_link: None,
    };
    assert_eq!(decode_appointment(&encode_appointment(&a)), Some(a));
}

#[test]
fn appointment_round_trip_with_video_link() {
    let a = Appointment {
        id: 7,
        patient_id: 3,
        doctor_id: 2,
        reason: "remote check".to_string(),
        appointment_time: 1_700_000_900,
        status: "completed".to_string(),
        video_link: Some("https://calls.example/room/7".to_string()),
    };
    assert_eq!(decode_appointment(&encode_appointment(&a)), Some(a));
}

#[test]
fn prescription_round_trip() {
    let p = sample_prescription();
    assert_eq!(decode_prescription(&encode_prescription(&p)), Some(p));
}

#[test]
fn payment_round_trip() {
    let p = Payment {
        id: 8,
        appointment_id: 6,
        patient_id: 3,
        amount: 250,
        status: "pending".to_string(),
        payment_method: "credit_card".to_string(),
    };
    assert_eq!(decode_payment(&encode_payment(&p)), Some(p));
}

#[test]
fn medical_record_round_trip() {
    let m = MedicalRecord {
        id: 9,
        patient_id: 3,
        doctor_id: 2,
        prescriptions: vec![sample_prescription()],
        lab_results: vec!["blood: normal".to_string()],
        diagnosis: "bronchitis".to_string(),
        treatment: "rest and fluids".to_string(),
        created_at: 1_700_001_000,
    };
    assert_eq!(decode_medical_record(&encode_medical_record(&m)), Some(m));
}

#[test]
fn decode_rejects_truncated_bytes() {
    let d = Department {
        id: 1,
        name: "Cardiology".to_string(),
        description: "Heart care".to_string(),
        created_at: 123_456,
    };
    let mut bytes = encode_department(&d);
    bytes.pop();
    assert_eq!(decode_department(&bytes), None);
}

#[test]
fn decode_rejects_trailing_bytes() {
    let d = Department {
        id: 1,
        name: "Cardiology".to_string(),
        description: "Heart care".to_string(),
        created_at: 123_456,
    };
    let mut bytes = encode_department(&d);
    bytes.push(0);
    assert_eq!(decode_department(&bytes), None);
}

#[test]
fn small_records_fit_the_declared_size_bound() {
    let d = Department {
        id: 1,
        name: "Cardiology".to_string(),
        description: "Heart care".to_string(),
        created_at: 123_456,
    };
    assert!(encode_department(&d).len() as u64 <= MAX_ENCODED_SIZE);
    let c = Consultation {
        id: 4,
        patient_id: 3,
        problem: "persistent cough".to_string(),
        department_id: 1,
    };
    assert!(encode_consultation(&c).len() as u64 <= MAX_ENCODED_SIZE);
}
