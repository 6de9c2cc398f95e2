//! The entity record types of the clinic service, the payloads their
//! create operations accept, and the typed result channel every operation
//! answers with. Each record type has a mathematical view used by the
//! codec and store contracts.

use vstd::prelude::*;

verus! {

/// The typed result channel: every public operation answers with the
/// requested data or one of these kinds, never a bare failure string.
#[derive(Debug, PartialEq, Eq)]
pub enum Message {
    Success(String),
    Error(String),
    NotFound(String),
    InvalidPayload(String),
}

// ---------------------------------------------------------------------------
// Records.
// ---------------------------------------------------------------------------

#[derive(Debug, PartialEq, Eq)]
pub struct Department {
    pub id: u64,
    pub name: String,
    pub description: String,
    pub created_at: u64,
}

pub ghost struct DepartmentView {
    pub id: u64,
    pub name: Seq<char>,
    pub description: Seq<char>,
    pub created_at: u64,
}

impl View for Department {
    type V = DepartmentView;

    open spec fn view(&self) -> DepartmentView {
        DepartmentView {
            id: self.id,
            name: self.name@,
            description: self.description@,
            created_at: self.created_at,
        }
    }
}

#[derive(Debug, PartialEq, Eq)]
pub struct Doctor {
    pub id: u64,
    pub name: String,
    pub department_id: u64,
    pub image: String,
    pub is_available: bool,
}

pub ghost struct DoctorView {
    pub id: u64,
    pub name: Seq<char>,
    pub department_id: u64,
    pub image: Seq<char>,
    pub is_available: bool,
}

impl View for Doctor {
    type V = DoctorView;

    open spec fn view(&self) -> DoctorView {
        DoctorView {
            id: self.id,
            name: self.name@,
            department_id: self.department_id,
            image: self.image@,
            is_available: self.is_available,
        }
    }
}

#[derive(Debug, PartialEq, Eq)]
pub struct EmergencyContact {
    pub name: String,
    pub phone_number: String,
    pub relationship: String,
}

pub ghost struct EmergencyContactView {
    pub name: Seq<char>,
    pub phone_number: Seq<char>,
    pub relationship: Seq<char>,
}

impl View for EmergencyContact {
    type V = EmergencyContactView;

    open spec fn view(&self) -> EmergencyContactView {
        EmergencyContactView {
            name: self.name@,
            phone_number: self.phone_number@,
            relationship: self.relationship@,
        }
    }
}

#[derive(Debug, PartialEq, Eq)]
pub struct Patient {
    pub id: u64,
    pub name: String,
    pub age: u64,
    pub gender: String,
    pub phone_number: String,
    pub email: String,
    pub address: String,
    pub emergency_contact: EmergencyContact,
    pub allergies: Vec<String>,
    pub current_medications: Vec<String>,
    pub medical_history: Vec<String>,
}

pub ghost struct PatientView {
    pub id: u64,
    pub name: Seq<char>,
    pub age: u64,
    pub gender: Seq<char>,
    pub phone_number: Seq<char>,
    pub email: Seq<char>,
    pub address: Seq<char>,
    pub emergency_contact: EmergencyContactView,
    pub allergies: Seq<Seq<char>>,
    pub current_medications: Seq<Seq<char>>,
    pub medical_history: Seq<Seq<char>>,
}

impl View for Patient {
    type V = PatientView;

    open spec fn view(&self) -> PatientView {
        PatientView {
            id: self.id,
            name: self.name@,
            age: self.age,
            gender: self.gender@,
            phone_number: self.phone_number@,
            email: self.email@,
            address: self.address@,
            emergency_contact: self.emergency_contact@,
            allergies: self.allergies.deep_view(),
            current_medications: self.current_medications.deep_view(),
            medical_history: self.medical_history.deep_view(),
        }
    }
}

#[derive(Debug, PartialEq, Eq)]
pub struct Consultation {
    pub id: u64,
    pub patient_id: u64,
    pub problem: String,
    pub department_id: u64,
}

pub ghost struct ConsultationView {
    pub id: u64,
    pub patient_id: u64,
    pub problem: Seq<char>,
    pub department_id: u64,
}

impl View for Consultation {
    type V = ConsultationView;

    open spec fn view(&self) -> ConsultationView {
        ConsultationView {
            id: self.id,
            patient_id: self.patient_id,
            problem: self.problem@,
            department_id: self.department_id,
        }
    }
}

#[derive(Debug, PartialEq, Eq)]
pub struct Chat {
    pub id: u64,
    pub patient_id: u64,
    pub doctor_id: u64,
    pub message: String,
    pub timestamp: u64,
}

pub ghost struct ChatView {
    pub id: u64,
    pub patient_id: u64,
    pub doctor_id: u64,
    pub message: Seq<char>,
    pub timestamp: u64,
}

impl View for Chat {
    type V = ChatView;

    open spec fn view(&self) -> ChatView {
        ChatView {
            id: self.id,
            patient_id: self.patient_id,
            doctor_id: self.doctor_id,
            message: self.message@,
            timestamp: self.timestamp,
        }
    }
}

#[derive(Debug, PartialEq, Eq)]
pub struct Appointment {
    pub id: u64,
    pub patient_id: u64,
    pub doctor_id: u64,
    pub reason: String,
    pub appointment_time: u64,
    pub status: String,
    pub video_link: Option<String>,
}

pub ghost struct AppointmentView {
    pub id: u64,
    pub patient_id: u64,
    pub doctor_id: u64,
    pub reason: Seq<char>,
    pub appointment_time: u64,
    pub status: Seq<char>,
    pub video_link: Option<Seq<char>>,
}

impl View for Appointment {
    type V = AppointmentView;

    open spec fn view(&self) -> AppointmentView {
        AppointmentView {
            id: self.id,
            patient_id: self.patient_id,
            doctor_id: self.doctor_id,
            reason: self.reason@,
            appointment_time: self.appointment_time,
            status: self.status@,
            video_link: self.video_link.deep_view(),
        }
    }
}

#[derive(Debug, PartialEq, Eq)]
pub struct Prescription {
    pub id: u64,
    pub patient_id: u64,
    pub doctor_id: u64,
    pub medications: Vec<String>,
    pub instructions: String,
    pub issued_at: u64,
}

pub ghost struct PrescriptionView {
    pub id: u64,
    pub patient_id: u64,
    pub doctor_id: u64,
    pub medications: Seq<Seq<char>>,
    pub instructions: Seq<char>,
    pub issued_at: u64,
}

impl View for Prescription {
    type V = PrescriptionView;

    open spec fn view(&self) -> PrescriptionView {
        PrescriptionView {
            id: self.id,
            patient_id: self.patient_id,
            doctor_id: self.doctor_id,
            medications: self.medications.deep_view(),
            instructions: self.instructions@,
            issued_at: self.issued_at,
        }
    }
}

impl DeepView for Prescription {
    type V = PrescriptionView;

    open spec fn deep_view(&self) -> PrescriptionView {
        self.view()
    }
}

#[derive(Debug, PartialEq, Eq)]
pub struct Payment {
    pub id: u64,
    pub appointment_id: u64,
    pub patient_id: u64,
    pub amount: u64,
    pub status: String,
    pub payment_method: String,
}

pub ghost struct PaymentView {
    pub id: u64,
    pub appointment_id: u64,
    pub patient_id: u64,
    pub amount: u64,
    pub status: Seq<char>,
    pub payment_method: Seq<char>,
}

impl View for Payment {
    type V = PaymentView;

    open spec fn view(&self) -> PaymentView {
        PaymentView {
            id: self.id,
            appointment_id: self.appointment_id,
            patient_id: self.patient_id,
            amount: self.amount,
            status: self.status@,
            payment_method: self.payment_method@,
        }
    }
}

#[derive(Debug, PartialEq, Eq)]
pub struct MedicalRecord {
    pub id: u64,
    pub patient_id: u64,
    pub doctor_id: u64,
    pub prescriptions: Vec<Prescription>,
    pub lab_results: Vec<String>,
    pub diagnosis: String,
    pub treatment: String,
    pub created_at: u64,
}

pub ghost struct MedicalRecordView {
    pub id: u64,
    pub patient_id: u64,
    pub doctor_id: u64,
    pub prescriptions: Seq<PrescriptionView>,
    pub lab_results: Seq<Seq<char>>,
    pub diagnosis: Seq<char>,
    pub treatment: Seq<char>,
    pub created_at: u64,
}

impl View for MedicalRecord {
    type V = MedicalRecordView;

    open spec fn view(&self) -> MedicalRecordView {
        MedicalRecordView {
            id: self.id,
            patient_id: self.patient_id,
            doctor_id: self.doctor_id,
            prescriptions: self.prescriptions.deep_view(),
            lab_results: self.lab_results.deep_view(),
            diagnosis: self.diagnosis@,
            treatment: self.treatment@,
            created_at: self.created_at,
        }
    }
}

// ---------------------------------------------------------------------------
// Create payloads. The caller supplies every field except the identifier
// and the server-assigned defaults.
// ---------------------------------------------------------------------------

#[derive(Debug, PartialEq, Eq)]
pub struct CreateDepartmentPayload {
    pub name: String,
    pub description: String,
}

#[derive(Debug, PartialEq, Eq)]
pub struct CreateDoctorPayload {
    pub name: String,
    pub department_id: u64,
    pub image: String,
}

#[derive(Debug, PartialEq, Eq)]
pub struct CreatePatientPayload {
    pub name: String,
    pub age: u64,
    pub gender: String,
    pub phone_number: String,
    pub email: String,
    pub address: String,
    pub emergency_contact: EmergencyContact,
    pub allergies: Vec<String>,
    pub current_medications: Vec<String>,
    pub medical_history: Vec<String>,
}

#[derive(Debug, PartialEq, Eq)]
pub struct CreateConsultationPayload {
    pub patient_id: u64,
    pub problem: String,
    pub department_id: u64,
}

#[derive(Debug, PartialEq, Eq)]
pub struct CreateChatPayload {
    pub patient_id: u64,
    pub doctor_id: u64,
    pub message: String,
    pub timestamp: u64,
}

#[derive(Debug, PartialEq, Eq)]
pub struct CreateAppointmentPayload {
    pub patient_id: u64,
    pub doctor_id: u64,
    pub reason: String,
    pub appointment_time: u64,
}

#[derive(Debug, PartialEq, Eq)]
pub struct CreatePrescriptionPayload {
    pub patient_id: u64,
    pub doctor_id: u64,
    pub medications: Vec<String>,
    pub instructions: String,
}

#[derive(Debug, PartialEq, Eq)]
pub struct CreatePaymentPayload {
    pub patient_id: u64,
    pub appointment_id: u64,
    pub amount: u64,
    pub payment_method: String,
}

#[derive(Debug, PartialEq, Eq)]
pub struct CreateMedicalRecordPayload {
    pub patient_id: u64,
    pub doctor_id: u64,
    pub prescriptions: Vec<Prescription>,
    pub lab_results: Vec<String>,
    pub diagnosis: String,
    pub treatment: String,
}

} // verus!
