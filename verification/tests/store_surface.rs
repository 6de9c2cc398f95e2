//! Tests of the entity store surface: identifier issue, creation with
//! validation and referential checks, lookups, full and filtered listings,
//! the empty-result convention, and the update operations.

use hospital_registry::records::CreateAppointmentPayload;
use hospital_registry::records::CreateChatPayload;
use hospital_registry::records::CreateConsultationPayload;
use hospital_registry::records::CreateDepartmentPayload;
use hospital_registry::records::CreateDoctorPayload;
use hospital_registry::records::CreateMedicalRecordPayload;
use hospital_registry::records::CreatePatientPayload;
use hospital_registry::records::CreatePaymentPayload;
use hospital_registry::records::CreatePrescriptionPayload;
use hospital_registry::records::EmergencyContact;
use hospital_registry::records::Message;
use hospital_registry::store::Hospital;

fn department_payload(name: &str) -> CreateDepartmentPayload {
    CreateDepartmentPayload {
        name: name.to_string(),
        description: "general care".to_string(),
    }
}

fn doctor_payload(name: &str, department_id: u64) -> CreateDoctorPayload {
    CreateDoctorPayload {
        name: name.to_string(),
        department_id,
        image: "portrait.png".to_string(),
    }
}

fn patient_payload(name: &str) -> CreatePatientPayload {
    CreatePatientPayload {
        name: name.to_string(),
        age: 30,
        gender: "female".to_string(),
        phone_number: "+1-555-0199".to_string(),
        email: "p@example.com".to_string(),
        address: "1 Main Street".to_string(),
        emergency_contact: EmergencyContact {
            name: "Kim".to_string(),
            phone_number: "+1-555-0198".to_string(),
            relationship: "friend".to_string(),
        },
        allergies: vec![],
        current_medications: vec![],
        medical_history: vec![],
    }
}

/// A store with one department (id 0), one doctor (id 1) and one patient
/// (id 2), the common backdrop of the dependent-record tests.
fn seeded() -> Hospital {
    let mut h = Hospital::new();
    h.create_department(department_payload("General"), 100).unwrap();
    h.create_doctor(doctor_payload("Dr. Hibbert", 0)).unwrap();
    h.create_patient(patient_payload("Alex")).unwrap();
    h
}

#[test]
fn issued_identifiers_are_distinct_and_increasing() {
    let mut h = Hospital::new();
    let a = h.next_id();
    let b = h.next_id();
    let c = h.next_id();
    assert_eq!(a, 0);
    assert_eq!(b, 1);
    assert_eq!(c, 2);
    assert!(a < b && b < c);
    assert_eq!(h.counter_value(), 3);
}

#[test]
fn scenario_create_department_then_doctor() {
    let mut h = Hospital::new();
    let d = h
        .create_department(department_payload("Springfield"), 5)
        .unwrap();
    assert_eq!(d.id, 0);
    assert_eq!(d.name, "Springfield");
    assert!(d.created_at > 0);

    let doc = h.create_doctor(doctor_payload("Dr. Nick", d.id)).unwrap();
    assert_eq!(doc.id, 1);
    assert_eq!(doc.department_id, d.id);
    assert!(doc.is_available);

    // A dangling department reference is rejected, and the counter does
    // not advance for the failed creation.
    let before = h.counter_value();
    let err = h.create_doctor(doctor_payload("Dr. Zoidberg", 999)).unwrap_err();
    assert_eq!(err, Message::NotFound("Department not found".to_string()));
    assert_eq!(h.counter_value(), before);

    let next = h.create_department(department_payload("Shelbyville"), 6).unwrap();
    assert_eq!(next.id, 2);
}

#[test]
fn create_department_requires_a_name() {
    let mut h = Hospital::new();
    let err = h.create_department(department_payload(""), 1).unwrap_err();
    assert_eq!(
        err,
        Message::InvalidPayload("Missing required fields".to_string())
    );
    assert_eq!(h.counter_value(), 0);
}

#[test]
fn create_patient_requires_name_phone_and_email() {
    let mut h = Hospital::new();
    let mut p = patient_payload("Alex");
    p.phone_number = String::new();
    let err = h.create_patient(p).unwrap_err();
    assert_eq!(
        err,
        Message::InvalidPayload("Missing required fields".to_string())
    );
}

#[test]
fn create_consultation_validates_and_checks_references() {
    let mut h = seeded();
    // Identifier zero counts as a missing field, by the original
    // validation convention, even though id zero can exist.
    let err = h
        .create_consultation(CreateConsultationPayload {
            patient_id: 0,
            problem: "headache".to_string(),
            department_id: 1,
        })
        .unwrap_err();
    assert_eq!(
        err,
        Message::InvalidPayload("Missing required fields".to_string())
    );

    let err = h
        .create_consultation(CreateConsultationPayload {
            patient_id: 777,
            problem: "headache".to_string(),
            department_id: 1,
        })
        .unwrap_err();
    assert_eq!(err, Message::NotFound("Patient not found".to_string()));

    let err = h
        .create_consultation(CreateConsultationPayload {
            patient_id: 2,
            problem: "headache".to_string(),
            department_id: 777,
        })
        .unwrap_err();
    assert_eq!(err, Message::NotFound("Department not found".to_string()));

    // The failed attempts stored nothing.
    assert_eq!(
        h.get_all_consultations().unwrap_err(),
        Message::NotFound("No consultations found".to_string())
    );
}

#[test]
fn create_chat_checks_patient_and_doctor() {
    let mut h = seeded();
    let err = h
        .create_chat(CreateChatPayload {
            patient_id: 2,
            doctor_id: 888,
            message: "hello".to_string(),
            timestamp: 9,
        })
        .unwrap_err();
    assert_eq!(err, Message::NotFound("Doctor not found".to_string()));

    let chat = h
        .create_chat(CreateChatPayload {
            patient_id: 2,
            doctor_id: 1,
            message: "hello".to_string(),
            timestamp: 9,
        })
        .unwrap();
    assert_eq!(chat.id, 3);
    assert_eq!(chat.timestamp, 9);
}

#[test]
fn create_appointment_assigns_scheduled_status() {
    let mut h = seeded();
    let a = h
        .create_appointment(CreateAppointmentPayload {
            patient_id: 2,
            doctor_id: 1,
            reason: "checkup".to_string(),
            appointment_time: 42,
        })
        .unwrap();
    assert_eq!(a.id, 3);
    assert_eq!(a.status, "scheduled");
    assert_eq!(a.video_link, None);
}

#[test]
fn create_prescription_validates_medications() {
    let mut h = seeded();
    let err = h
        .create_prescription(
            CreatePrescriptionPayload {
                patient_id: 2,
                doctor_id: 1,
                medications: vec![],
                instructions: "daily".to_string(),
            },
            50,
        )
        .unwrap_err();
    assert_eq!(
        err,
        Message::InvalidPayload("Missing required fields".to_string())
    );

    let p = h
        .create_prescription(
            CreatePrescriptionPayload {
                patient_id: 2,
                doctor_id: 1,
                medications: vec!["ibuprofen".to_string()],
                instructions: "daily".to_string(),
            },
            50,
        )
        .unwrap();
    assert_eq!(p.id, 3);
    assert_eq!(p.issued_at, 50);
}

#[test]
fn create_payment_checks_patient_and_appointment() {
    let mut h = seeded();
    let a = h
        .create_appointment(CreateAppointmentPayload {
            patient_id: 2,
            doctor_id: 1,
            reason: "checkup".to_string(),
            appointment_time: 42,
        })
        .unwrap();

    let err = h
        .create_payment(CreatePaymentPayload {
            patient_id: 2,
            appointment_id: 999_999,
            amount: 100,
            payment_method: "paypal".to_string(),
        })
        .unwrap_err();
    assert_eq!(err, Message::NotFound("Appointment not found".to_string()));

    let pay = h
        .create_payment(CreatePaymentPayload {
            patient_id: 2,
            appointment_id: a.id,
            amount: 100,
            payment_method: "paypal".to_string(),
        })
        .unwrap();
    assert_eq!(pay.status, "pending");
    assert_eq!(pay.amount, 100);
}

#[test]
fn create_medical_record_checks_references_only() {
    let mut h = seeded();
    let err = h
        .create_medical_record(
            CreateMedicalRecordPayload {
                patient_id: 41,
                doctor_id: 1,
                prescriptions: vec![],
                lab_results: vec![],
                diagnosis: String::new(),
                treatment: String::new(),
            },
            7,
        )
        .unwrap_err();
    assert_eq!(err, Message::NotFound("Patient not found".to_string()));

    // No payload validation exists for medical records: empty texts pass.
    let m = h
        .create_medical_record(
            CreateMedicalRecordPayload {
                patient_id: 2,
                doctor_id: 1,
                prescriptions: vec![],
                lab_results: vec![],
                diagnosis: String::new(),
                treatment: String::new(),
            },
            7,
        )
        .unwrap();
    assert_eq!(m.id, 3);
    assert_eq!(m.created_at, 7);
}

#[test]
fn get_by_id_finds_stored_records() {
    let mut h = seeded();
    let d = h.get_department_by_id(0).unwrap();
    assert_eq!(d.name, "General");
    let doc = h.get_doctor_by_id(1).unwrap();
    assert_eq!(doc.name, "Dr. Hibbert");
    let p = h.get_patient_by_id(2).unwrap();
    assert_eq!(p.name, "Alex");
    assert_eq!(
        h.get_department_by_id(55).unwrap_err(),
        Message::NotFound("Department not found".to_string())
    );
    assert_eq!(
        h.get_doctor_by_id(0).unwrap_err(),
        Message::NotFound("Doctor not found".to_string())
    );
}

#[test]
fn list_all_on_empty_store_is_not_found() {
    let h = Hospital::new();
    assert_eq!(
        h.get_all_departments().unwrap_err(),
        Message::NotFound("No departments found".to_string())
    );
    assert_eq!(
        h.get_all_doctors().unwrap_err(),
        Message::NotFound("No doctors found".to_string())
    );
    assert_eq!(
        h.get_all_patients().unwrap_err(),
        Message::NotFound("No patients found".to_string())
    );
    assert_eq!(
        h.get_all_appointments().unwrap_err(),
        Message::NotFound("No appointments found".to_string())
    );
    assert_eq!(
        h.get_all_medical_records().unwrap_err(),
        Message::NotFound("No medical records found".to_string())
    );
}

#[test]
fn list_all_returns_records_in_identifier_order() {
    let mut h = Hospital::new();
    h.create_department(department_payload("Cardiology"), 1).unwrap();
    h.create_department(department_payload("Oncology"), 2).unwrap();
    h.create_department(department_payload("Pediatrics"), 3).unwrap();
    let all = h.get_all_departments().unwrap();
    assert_eq!(all.len(), 3);
    assert_eq!(all[0].id, 0);
    assert_eq!(all[1].id, 1);
    assert_eq!(all[2].id, 2);
    assert_eq!(all[0].name, "Cardiology");
    assert_eq!(all[2].name, "Pediatrics");
}

#[test]
fn filters_select_exactly_the_matching_records() {
    let mut h = seeded();
    h.create_department(department_payload("Surgery"), 101).unwrap();  // id 3
    h.create_doctor(doctor_payload("Dr. Cutter", 3)).unwrap();  // id 4
    h.create_doctor(doctor_payload("Dr. Slicer", 3)).unwrap();  // id 5

    let in_surgery = h.get_doctors_by_department_id(3).unwrap();
    assert_eq!(in_surgery.len(), 2);
    assert_eq!(in_surgery[0].name, "Dr. Cutter");
    assert_eq!(in_surgery[1].name, "Dr. Slicer");

    let in_general = h.get_doctors_by_department_id(0).unwrap();
    assert_eq!(in_general.len(), 1);
    assert_eq!(in_general[0].name, "Dr. Hibbert");

    assert_eq!(
        h.get_doctors_by_department_id(77).unwrap_err(),
        Message::NotFound("No doctors found".to_string())
    );
}

#[test]
fn search_matches_name_fragments() {
    let mut h = Hospital::new();
    h.create_department(department_payload("Cardiology"), 1).unwrap();
    h.create_department(department_payload("Radiology"), 2).unwrap();
    h.create_department(department_payload("Surgery"), 3).unwrap();

    let matching = h.search_departments_by_name("iology".to_string()).unwrap();
    assert_eq!(matching.len(), 2);
    assert_eq!(matching[0].name, "Cardiology");
    assert_eq!(matching[1].name, "Radiology");

    // The empty fragment occurs in every name.
    let everything = h.search_departments_by_name(String::new()).unwrap();
    assert_eq!(everything.len(), 3);

    assert_eq!(
        h.search_departments_by_name("Dermatology".to_string()).unwrap_err(),
        Message::NotFound("No departments found".to_string())
    );
}

#[test]
fn chats_filter_by_patient_and_doctor() {
    let mut h = seeded();
    h.create_patient(patient_payload("Brook")).unwrap();  // id 3
    h.create_chat(CreateChatPayload {
        patient_id: 2,
        doctor_id: 1,
        message: "first".to_string(),
        timestamp: 1,
    })
    .unwrap();
    h.create_chat(CreateChatPayload {
        patient_id: 3,
        doctor_id: 1,
        message: "second".to_string(),
        timestamp: 2,
    })
    .unwrap();

    let of_patient = h.get_chats_by_patient_id(2).unwrap();
    assert_eq!(of_patient.len(), 1);
    assert_eq!(of_patient[0].message, "first");

    let of_doctor = h.get_chats_by_doctor_id(1).unwrap();
    assert_eq!(of_doctor.len(), 2);

    assert_eq!(
        h.get_chats_by_patient_id(9).unwrap_err(),
        Message::NotFound("No chats found".to_string())
    );
}

#[test]
fn update_doctor_availability_replaces_in_place() {
    let mut h = seeded();
    let updated = h.update_doctor_availability(1, false).unwrap();
    assert!(!updated.is_available);
    assert_eq!(updated.name, "Dr. Hibbert");
    assert!(!h.get_doctor_by_id(1).unwrap().is_available);

    // Writing the same key twice keeps the last value.
    h.update_doctor_availability(1, true).unwrap();
    assert!(h.get_doctor_by_id(1).unwrap().is_available);

    assert_eq!(
        h.update_doctor_availability(0, true).unwrap_err(),
        Message::NotFound("Doctor not found".to_string())
    );
}

#[test]
fn update_appointment_status_and_video_link() {
    let mut h = seeded();
    let a = h
        .create_appointment(CreateAppointmentPayload {
            patient_id: 2,
            doctor_id: 1,
            reason: "checkup".to_string(),
            appointment_time: 42,
        })
        .unwrap();

    let canceled = h
        .update_appointment_status(a.id, "canceled".to_string())
        .unwrap();
    assert_eq!(canceled.status, "canceled");
    assert_eq!(canceled.reason, "checkup");

    let linked = h
        .update_appointment_video_link(a.id, "https://calls.example/1".to_string())
        .unwrap();
    assert_eq!(linked.video_link, Some("https://calls.example/1".to_string()));
    assert_eq!(linked.status, "canceled");

    assert_eq!(
        h.update_appointment_status(404, "done".to_string()).unwrap_err(),
        Message::NotFound("Appointment not found".to_string())
    );
}

#[test]
fn stored_records_round_trip_through_the_store() {
    let mut h = seeded();
    let mut payload = patient_payload("Casey");
    payload.allergies = vec!["dust".to_string(), "någon blomma".to_string()];
    payload.medical_history = vec!["surgery in 2019".to_string()];
    let created = h.create_patient(payload).unwrap();
    let fetched = h.get_patient_by_id(created.id).unwrap();
    assert_eq!(fetched, created);
}
