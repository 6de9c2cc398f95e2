//! Tests of the remaining query endpoints: every filter and listing runs
//! at least once against stored data, with both a matching and an empty
//! result.

use hospital_registry::records::CreateAppointmentPayload;
use hospital_registry::records::CreateChatPayload;
use hospital_registry::records::CreateConsultationPayload;
use hospital_registry::records::CreateDepartmentPayload;
use hospital_registry::records::CreateDoctorPayload;
use hospital_registry::records::CreateMedicalRecordPayload;
use hospital_registry::records::CreatePatientPayload;
use hospital_registry::records::CreatePaymentPayload;
use hospital_registry::records::CreatePrescriptionPayload;
use hospital_registry::records::EmergencyContact;
use hospital_registry::records::Message;
use hospital_registry::store::Hospital;

/// A store with two departments, two doctors, two patients and one of
/// every dependent record, enough to make every filter selective.
fn clinic() -> Hospital {
    let mut h = Hospital::new();
    h.create_department(CreateDepartmentPayload {
        name: "General".to_string(),
        description: "walk-in".to_string(),
    }, 10)
    .unwrap();  // id 0
    h.create_department(CreateDepartmentPayload {
        name: "Surgery".to_string(),
        description: "operations".to_string(),
    }, 11)
    .unwrap();  // id 1
    h.create_doctor(CreateDoctorPayload {
        name: "Dr. Hibbert".to_string(),
        department_id: 0,
        image: "h.png".to_string(),
    })
    .unwrap();  // id 2
    h.create_doctor(CreateDoctorPayload {
        name: "Dr. Cutter".to_string(),
        department_id: 1,
        image: "c.png".to_string(),
    })
    .unwrap();  // id 3
    for name in ["Alex", "Brook"] {
        h.create_patient(CreatePatientPayload {
            name: name.to_string(),
            age: 40,
            gender: "male".to_string(),
            phone_number: "+1-555-0000".to_string(),
            email: "x@example.com".to_string(),
            address: "somewhere".to_string(),
            emergency_contact: EmergencyContact {
                name: "Kim".to_string(),
                phone_number: "+1-555-0001".to_string(),
                relationship: "friend".to_string(),
            },
            allergies: vec![],
            current_medications: vec![],
            medical_history: vec![],
        })
        .unwrap();  // ids 4 and 5
    }
    h.create_consultation(CreateConsultationPayload {
        patient_id: 4,
        problem: "cough".to_string(),
        department_id: 1,
    })
    .unwrap();  // id 6
    h.create_chat(CreateChatPayload {
        patient_id: 4,
        doctor_id: 2,
        message: "hi".to_string(),
        timestamp: 3,
    })
    .unwrap();  // id 7
    h.create_appointment(CreateAppointmentPayload {
        patient_id: 4,
        doctor_id: 2,
        reason: "checkup".to_string(),
        appointment_time: 60,
    })
    .unwrap();  // id 8
    h.create_prescription(
        CreatePrescriptionPayload {
            patient_id: 4,
            doctor_id: 3,
            medications: vec!["rest".to_string()],
            instructions: "a week".to_string(),
        },
        12,
    )
    .unwrap();  // id 9
    h.create_payment(CreatePaymentPayload {
        patient_id: 4,
        appointment_id: 8,
        amount: 75,
        payment_method: "credit_card".to_string(),
    })
    .unwrap();  // id 10
    h.create_medical_record(
        CreateMedicalRecordPayload {
            patient_id: 4,
            doctor_id: 2,
            prescriptions: vec![],
            lab_results: vec!["ok".to_string()],
            diagnosis: "cold".to_string(),
            treatment: "tea".to_string(),
        },
        13,
    )
    .unwrap();  // id 11
    h
}

#[test]
fn consultations_filter_by_patient() {
    let h = clinic();
    let found = h.get_consultations_by_patient_id(4).unwrap();
    assert_eq!(found.len(), 1);
    assert_eq!(found[0].problem, "cough");
    assert_eq!(
        h.get_consultations_by_patient_id(5).unwrap_err(),
        Message::NotFound("No consultations found".to_string())
    );
    assert_eq!(h.get_all_consultations().unwrap().len(), 1);
    assert_eq!(h.get_consultation_by_id(6).unwrap().department_id, 1);
}

#[test]
fn appointments_filter_by_patient_and_doctor() {
    let h = clinic();
    assert_eq!(h.get_appointments_by_patient_id(4).unwrap().len(), 1);
    assert_eq!(h.get_appointments_by_doctor_id(2).unwrap().len(), 1);
    assert_eq!(
        h.get_appointments_by_doctor_id(3).unwrap_err(),
        Message::NotFound("No appointments found".to_string())
    );
    assert_eq!(h.get_appointment_by_id(8).unwrap().reason, "checkup");
}

#[test]
fn prescriptions_filter_by_patient_and_doctor() {
    let h = clinic();
    assert_eq!(h.get_prescriptions_by_patient_id(4).unwrap().len(), 1);
    let by_doctor = h.get_prescriptions_by_doctor_id(3).unwrap();
    assert_eq!(by_doctor.len(), 1);
    assert_eq!(by_doctor[0].medications, vec!["rest".to_string()]);
    assert_eq!(
        h.get_prescriptions_by_doctor_id(2).unwrap_err(),
        Message::NotFound("No prescriptions found".to_string())
    );
    assert_eq!(h.get_all_prescriptions().unwrap().len(), 1);
    assert_eq!(h.get_prescription_by_id(9).unwrap().issued_at, 12);
}

#[test]
fn payments_filter_by_patient_and_appointment() {
    let h = clinic();
    assert_eq!(h.get_payments_by_patient_id(4).unwrap().len(), 1);
    let by_appointment = h.get_payments_by_appointment_id(8).unwrap();
    assert_eq!(by_appointment.len(), 1);
    assert_eq!(by_appointment[0].amount, 75);
    assert_eq!(
        h.get_payments_by_appointment_id(1).unwrap_err(),
        Message::NotFound("No payments found".to_string())
    );
    assert_eq!(h.get_all_payments().unwrap().len(), 1);
    assert_eq!(h.get_payment_by_id(10).unwrap().status, "pending");
}

#[test]
fn medical_records_filter_by_patient_and_doctor() {
    let h = clinic();
    assert_eq!(h.get_medical_records_by_patient_id(4).unwrap().len(), 1);
    let by_doctor = h.get_medical_records_by_doctor_id(2).unwrap();
    assert_eq!(by_doctor.len(), 1);
    assert_eq!(by_doctor[0].diagnosis, "cold");
    assert_eq!(
        h.get_medical_records_by_patient_id(5).unwrap_err(),
        Message::NotFound("No medical records found".to_string())
    );
    assert_eq!(h.get_medical_record_by_id(11).unwrap().treatment, "tea");
}

#[test]
fn doctors_search_by_name_fragment() {
    let h = clinic();
    let found = h.search_doctors_by_name("Cut".to_string()).unwrap();
    assert_eq!(found.len(), 1);
    assert_eq!(found[0].name, "Dr. Cutter");
    let all = h.search_doctors_by_name("Dr.".to_string()).unwrap();
    assert_eq!(all.len(), 2);
    assert_eq!(
        h.search_doctors_by_name("Nick".to_string()).unwrap_err(),
        Message::NotFound("No doctors found".to_string())
    );
}

#[test]
fn chats_and_listings_cover_the_rest() {
    let h = clinic();
    assert_eq!(h.get_chat_by_id(7).unwrap().message, "hi");
    assert_eq!(h.get_all_chats().unwrap().len(), 1);
    assert_eq!(
        h.get_chats_by_doctor_id(3).unwrap_err(),
        Message::NotFound("No chats found".to_string())
    );
    assert_eq!(h.get_all_doctors().unwrap().len(), 2);
    assert_eq!(h.get_all_patients().unwrap().len(), 2);
    assert_eq!(h.get_all_departments().unwrap().len(), 2);
}
