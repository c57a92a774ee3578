//! VMCS field encodings (Intel SDM Vol. 3, Appendix B): the 32-bit value
//! VMREAD and VMWRITE take for each field.

use vstd::prelude::*;

verus! {

/// A VMCS field.
#[allow(non_camel_case_types)]
#[derive(Clone, Copy, Debug, PartialEq, Eq, Structural)]
pub enum VmcsField {
    VIRTUAL_PROCESSOR_ID,
    POSTED_INTR_NOTIFICATION,
    EPTP_INDEX,
    GUEST_ES_SELECTOR,
    GUEST_CS_SELECTOR,
    GUEST_SS_SELECTOR,
    GUEST_DS_SELECTOR,
    GUEST_FS_SELECTOR,
    GUEST_GS_SELECTOR,
    GUEST_LDTR_SELECTOR,
    GUEST_TR_SELECTOR,
    GUEST_INTR_STATUS,
    GUEST_PML_INDEX,
    HOST_ES_SELECTOR,
    HOST_CS_SELECTOR,
    HOST_SS_SELECTOR,
    HOST_DS_SELECTOR,
    HOST_FS_SELECTOR,
    HOST_GS_SELECTOR,
    HOST_TR_SELECTOR,
    IO_BITMAP_A,
    IO_BITMAP_B,
    MSR_BITMAP,
    VM_EXIT_MSR_STORE_ADDR,
    VM_EXIT_MSR_LOAD_ADDR,
    VM_ENTRY_MSR_LOAD_ADDR,
    EXECUTIVE_VMCS_POINTER,
    PML_ADDRESS,
    TSC_OFFSET,
    VIRTUAL_APIC_PAGE_ADDR,
    APIC_ACCESS_ADDR,
    POSTED_INTR_DESC_ADDR,
    VM_FUNCTION_CONTROL,
    EPT_POINTER,
    EOI_EXIT_BITMAP0,
    EOI_EXIT_BITMAP1,
    EOI_EXIT_BITMAP2,
    EOI_EXIT_BITMAP3,
    EPTP_LIST_ADDRESS,
    VMREAD_BITMAP,
    VMWRITE_BITMAP,
    VE_INFO_ADDRESS,
    XSS_EXIT_BITMAP,
    ENCLS_EXITING_BITMAP,
    SUB_PAGE_PERM_TABLE_PTR,
    TSC_MULTIPLIER,
    GUEST_PHYS_ADDR,
    VMCS_LINK_POINTER,
    GUEST_IA32_DEBUGCTL,
    GUEST_IA32_PAT,
    GUEST_IA32_EFER,
    GUEST_IA32_PERF_GLOBAL_CTRL,
    GUEST_PDPTR0,
    GUEST_PDPTR1,
    GUEST_PDPTR2,
    GUEST_PDPTR3,
    GUEST_IA32_BNDCFGS,
    GUEST_IA32_RTIT_CTL,
    HOST_IA32_PAT,
    HOST_IA32_EFER,
    HOST_IA32_PERF_GLOBAL_CTRL,
    PIN_BASED_VM_EXEC_CONTROL,
    CPU_BASED_VM_EXEC_CONTROL,
    EXCEPTION_BITMAP,
    PAGE_FAULT_ERROR_CODE_MASK,
    PAGE_FAULT_ERROR_CODE_MATCH,
    CR3_TARGET_COUNT,
    VM_EXIT_CONTROLS,
    VM_EXIT_MSR_STORE_COUNT,
    VM_EXIT_MSR_LOAD_COUNT,
    VM_ENTRY_CONTROLS,
    VM_ENTRY_MSR_LOAD_COUNT,
    VM_ENTRY_INTR_INFO_FIELD,
    VM_ENTRY_EXCEPTION_ERROR_CODE,
    VM_ENTRY_INSTRUCTION_LEN,
    TPR_THRESHOLD,
    SECONDARY_VM_EXEC_CONTROL,
    PLE_GAP,
    PLE_WINDOW,
    VM_INSTRUCTION_ERROR,
    EXIT_REASON,
    VM_EXIT_INTR_INFO,
    VM_EXIT_INTR_ERROR_CODE,
    IDT_VECTORING_INFO_FIELD,
    IDT_VECTORING_ERROR_CODE,
    VM_EXIT_INSTRUCTION_LEN,
    VMX_INSTRUCTION_INFO,
    GUEST_ES_LIMIT,
    GUEST_CS_LIMIT,
    GUEST_SS_LIMIT,
    GUEST_DS_LIMIT,
    GUEST_FS_LIMIT,
    GUEST_GS_LIMIT,
    GUEST_LDTR_LIMIT,
    GUEST_TR_LIMIT,
    GUEST_GDTR_LIMIT,
    GUEST_IDTR_LIMIT,
    GUEST_ES_AR_BYTES,
    GUEST_CS_AR_BYTES,
    GUEST_SS_AR_BYTES,
    GUEST_DS_AR_BYTES,
    GUEST_FS_AR_BYTES,
    GUEST_GS_AR_BYTES,
    GUEST_LDTR_AR_BYTES,
    GUEST_TR_AR_BYTES,
    GUEST_INTERRUPTIBILITY_INFO,
    GUEST_ACTIVITY_STATE,
    GUEST_SMBASE,
    GUEST_IA32_SYSENTER_CS,
    VMX_PREEMPTION_TIMER_VALUE,
    HOST_IA32_SYSENTER_CS,
    CR0_GUEST_HOST_MASK,
    CR4_GUEST_HOST_MASK,
    CR0_READ_SHADOW,
    CR4_READ_SHADOW,
    CR3_TARGET_VALUE0,
    CR3_TARGET_VALUE1,
    CR3_TARGET_VALUE2,
    CR3_TARGET_VALUE3,
    EXIT_QUALIFICATION,
    IO_RCX,
    IO_RSI,
    IO_RDI,
    IO_RIP,
    GUEST_LINEAR_ADDR,
    GUEST_CR0,
    GUEST_CR3,
    GUEST_CR4,
    GUEST_ES_BASE,
    GUEST_CS_BASE,
    GUEST_SS_BASE,
    GUEST_DS_BASE,
    GUEST_FS_BASE,
    GUEST_GS_BASE,
    GUEST_LDTR_BASE,
    GUEST_TR_BASE,
    GUEST_GDTR_BASE,
    GUEST_IDTR_BASE,
    GUEST_DR7,
    GUEST_RSP,
    GUEST_RIP,
    GUEST_RFLAGS,
    GUEST_PENDING_DBG_EXCEPTIONS,
    GUEST_IA32_SYSENTER_ESP,
    GUEST_IA32_SYSENTER_EIP,
    GUEST_RAX,
    GUEST_RBX,
    GUEST_RCX,
    GUEST_RDX,
    GUEST_RSI,
    GUEST_RDI,
    GUEST_RBP,
    GUEST_R8,
    GUEST_R9,
    GUEST_R10,
    GUEST_R11,
    GUEST_R12,
    GUEST_R13,
    GUEST_R14,
    GUEST_R15,
    HOST_CR0,
    HOST_CR3,
    HOST_CR4,
    HOST_FS_BASE,
    HOST_GS_BASE,
    HOST_TR_BASE,
    HOST_GDTR_BASE,
    HOST_IDTR_BASE,
    HOST_IA32_SYSENTER_ESP,
    HOST_IA32_SYSENTER_EIP,
    HOST_RSP,
    HOST_RIP,
}

/// The encoding of a field.
pub open spec fn field_encoding(f: VmcsField) -> u32 {
    match f {
        VmcsField::VIRTUAL_PROCESSOR_ID => 0x0000,
        VmcsField::POSTED_INTR_NOTIFICATION => 0x0002,
        VmcsField::EPTP_INDEX => 0x0004,
        VmcsField::GUEST_ES_SELECTOR => 0x0800,
        VmcsField::GUEST_CS_SELECTOR => 0x0802,
        VmcsField::GUEST_SS_SELECTOR => 0x0804,
        VmcsField::GUEST_DS_SELECTOR => 0x0806,
        VmcsField::GUEST_FS_SELECTOR => 0x0808,
        VmcsField::GUEST_GS_SELECTOR => 0x080A,
        VmcsField::GUEST_LDTR_SELECTOR => 0x080C,
        VmcsField::GUEST_TR_SELECTOR => 0x080E,
        VmcsField::GUEST_INTR_STATUS => 0x0810,
        VmcsField::GUEST_PML_INDEX => 0x0812,
        VmcsField::HOST_ES_SELECTOR => 0x0C00,
        VmcsField::HOST_CS_SELECTOR => 0x0C02,
        VmcsField::HOST_SS_SELECTOR => 0x0C04,
        VmcsField::HOST_DS_SELECTOR => 0x0C06,
        VmcsField::HOST_FS_SELECTOR => 0x0C08,
        VmcsField::HOST_GS_SELECTOR => 0x0C0A,
        VmcsField::HOST_TR_SELECTOR => 0x0C0C,
        VmcsField::IO_BITMAP_A => 0x2000,
        VmcsField::IO_BITMAP_B => 0x2002,
        VmcsField::MSR_BITMAP => 0x2004,
        VmcsField::VM_EXIT_MSR_STORE_ADDR => 0x2006,
        VmcsField::VM_EXIT_MSR_LOAD_ADDR => 0x2008,
        VmcsField::VM_ENTRY_MSR_LOAD_ADDR => 0x200A,
        VmcsField::EXECUTIVE_VMCS_POINTER => 0x200C,
        VmcsField::PML_ADDRESS => 0x200E,
        VmcsField::TSC_OFFSET => 0x2010,
        VmcsField::VIRTUAL_APIC_PAGE_ADDR => 0x2012,
        VmcsField::APIC_ACCESS_ADDR => 0x2014,
        VmcsField::POSTED_INTR_DESC_ADDR => 0x2016,
        VmcsField::VM_FUNCTION_CONTROL => 0x2018,
        VmcsField::EPT_POINTER => 0x201A,
        VmcsField::EOI_EXIT_BITMAP0 => 0x201C,
        VmcsField::EOI_EXIT_BITMAP1 => 0x201E,
        VmcsField::EOI_EXIT_BITMAP2 => 0x2020,
        VmcsField::EOI_EXIT_BITMAP3 => 0x2022,
        VmcsField::EPTP_LIST_ADDRESS => 0x2024,
        VmcsField::VMREAD_BITMAP => 0x2026,
        VmcsField::VMWRITE_BITMAP => 0x2028,
        VmcsField::VE_INFO_ADDRESS => 0x202A,
        VmcsField::XSS_EXIT_BITMAP => 0x202C,
        VmcsField::ENCLS_EXITING_BITMAP => 0x202E,
        VmcsField::SUB_PAGE_PERM_TABLE_PTR => 0x2030,
        VmcsField::TSC_MULTIPLIER => 0x2032,
        VmcsField::GUEST_PHYS_ADDR => 0x2400,
        VmcsField::VMCS_LINK_POINTER => 0x2800,
        VmcsField::GUEST_IA32_DEBUGCTL => 0x2802,
        VmcsField::GUEST_IA32_PAT => 0x2804,
        VmcsField::GUEST_IA32_EFER => 0x2806,
        VmcsField::GUEST_IA32_PERF_GLOBAL_CTRL => 0x2808,
        VmcsField::GUEST_PDPTR0 => 0x280A,
        VmcsField::GUEST_PDPTR1 => 0x280C,
        VmcsField::GUEST_PDPTR2 => 0x280E,
        VmcsField::GUEST_PDPTR3 => 0x2810,
        VmcsField::GUEST_IA32_BNDCFGS => 0x2812,
        VmcsField::GUEST_IA32_RTIT_CTL => 0x2814,
        VmcsField::HOST_IA32_PAT => 0x2C00,
        VmcsField::HOST_IA32_EFER => 0x2C02,
        VmcsField::HOST_IA32_PERF_GLOBAL_CTRL => 0x2C04,
        VmcsField::PIN_BASED_VM_EXEC_CONTROL => 0x4000,
        VmcsField::CPU_BASED_VM_EXEC_CONTROL => 0x4002,
        VmcsField::EXCEPTION_BITMAP => 0x4004,
        VmcsField::PAGE_FAULT_ERROR_CODE_MASK => 0x4006,
        VmcsField::PAGE_FAULT_ERROR_CODE_MATCH => 0x4008,
        VmcsField::CR3_TARGET_COUNT => 0x400A,
        VmcsField::VM_EXIT_CONTROLS => 0x400C,
        VmcsField::VM_EXIT_MSR_STORE_COUNT => 0x400E,
        VmcsField::VM_EXIT_MSR_LOAD_COUNT => 0x4010,
        VmcsField::VM_ENTRY_CONTROLS => 0x4012,
        VmcsField::VM_ENTRY_MSR_LOAD_COUNT => 0x4014,
        VmcsField::VM_ENTRY_INTR_INFO_FIELD => 0x4016,
        VmcsField::VM_ENTRY_EXCEPTION_ERROR_CODE => 0x4018,
        VmcsField::VM_ENTRY_INSTRUCTION_LEN => 0x401A,
        VmcsField::TPR_THRESHOLD => 0x401C,
        VmcsField::SECONDARY_VM_EXEC_CONTROL => 0x401E,
        VmcsField::PLE_GAP => 0x4020,
        VmcsField::PLE_WINDOW => 0x4022,
        VmcsField::VM_INSTRUCTION_ERROR => 0x4400,
        VmcsField::EXIT_REASON => 0x4402,
        VmcsField::VM_EXIT_INTR_INFO => 0x4404,
        VmcsField::VM_EXIT_INTR_ERROR_CODE => 0x4406,
        VmcsField::IDT_VECTORING_INFO_FIELD => 0x4408,
        VmcsField::IDT_VECTORING_ERROR_CODE => 0x440A,
        VmcsField::VM_EXIT_INSTRUCTION_LEN => 0x440C,
        VmcsField::VMX_INSTRUCTION_INFO => 0x440E,
        VmcsField::GUEST_ES_LIMIT => 0x4800,
        VmcsField::GUEST_CS_LIMIT => 0x4802,
        VmcsField::GUEST_SS_LIMIT => 0x4804,
        VmcsField::GUEST_DS_LIMIT => 0x4806,
        VmcsField::GUEST_FS_LIMIT => 0x4808,
        VmcsField::GUEST_GS_LIMIT => 0x480A,
        VmcsField::GUEST_LDTR_LIMIT => 0x480C,
        VmcsField::GUEST_TR_LIMIT => 0x480E,
        VmcsField::GUEST_GDTR_LIMIT => 0x4810,
        VmcsField::GUEST_IDTR_LIMIT => 0x4812,
        VmcsField::GUEST_ES_AR_BYTES => 0x4814,
        VmcsField::GUEST_CS_AR_BYTES => 0x4816,
        VmcsField::GUEST_SS_AR_BYTES => 0x4818,
        VmcsField::GUEST_DS_AR_BYTES => 0x481A,
        VmcsField::GUEST_FS_AR_BYTES => 0x481C,
        VmcsField::GUEST_GS_AR_BYTES => 0x481E,
        VmcsField::GUEST_LDTR_AR_BYTES => 0x4820,
        VmcsField::GUEST_TR_AR_BYTES => 0x4822,
        VmcsField::GUEST_INTERRUPTIBILITY_INFO => 0x4824,
        VmcsField::GUEST_ACTIVITY_STATE => 0x4826,
        VmcsField::GUEST_SMBASE => 0x4828,
        VmcsField::GUEST_IA32_SYSENTER_CS => 0x482A,
        VmcsField::VMX_PREEMPTION_TIMER_VALUE => 0x482E,
        VmcsField::HOST_IA32_SYSENTER_CS => 0x4C00,
        VmcsField::CR0_GUEST_HOST_MASK => 0x6000,
        VmcsField::CR4_GUEST_HOST_MASK => 0x6002,
        VmcsField::CR0_READ_SHADOW => 0x6004,
        VmcsField::CR4_READ_SHADOW => 0x6006,
        VmcsField::CR3_TARGET_VALUE0 => 0x6008,
        VmcsField::CR3_TARGET_VALUE1 => 0x600A,
        VmcsField::CR3_TARGET_VALUE2 => 0x600C,
        VmcsField::CR3_TARGET_VALUE3 => 0x600E,
        VmcsField::EXIT_QUALIFICATION => 0x6400,
        VmcsField::IO_RCX => 0x6402,
        VmcsField::IO_RSI => 0x6404,
        VmcsField::IO_RDI => 0x6406,
        VmcsField::IO_RIP => 0x6408,
        VmcsField::GUEST_LINEAR_ADDR => 0x640A,
        VmcsField::GUEST_CR0 => 0x6800,
        VmcsField::GUEST_CR3 => 0x6802,
        VmcsField::GUEST_CR4 => 0x6804,
        VmcsField::GUEST_ES_BASE => 0x6806,
        VmcsField::GUEST_CS_BASE => 0x6808,
        VmcsField::GUEST_SS_BASE => 0x680A,
        VmcsField::GUEST_DS_BASE => 0x680C,
        VmcsField::GUEST_FS_BASE => 0x680E,
        VmcsField::GUEST_GS_BASE => 0x6810,
        VmcsField::GUEST_LDTR_BASE => 0x6812,
        VmcsField::GUEST_TR_BASE => 0x6814,
        VmcsField::GUEST_GDTR_BASE => 0x6816,
        VmcsField::GUEST_IDTR_BASE => 0x6818,
        VmcsField::GUEST_DR7 => 0x681A,
        VmcsField::GUEST_RSP => 0x681C,
        VmcsField::GUEST_RIP => 0x681E,
        VmcsField::GUEST_RFLAGS => 0x6820,
        VmcsField::GUEST_PENDING_DBG_EXCEPTIONS => 0x6822,
        VmcsField::GUEST_IA32_SYSENTER_ESP => 0x6824,
        VmcsField::GUEST_IA32_SYSENTER_EIP => 0x6826,
        VmcsField::GUEST_RAX => 0x6828,
        VmcsField::GUEST_RBX => 0x682A,
        VmcsField::GUEST_RCX => 0x682C,
        VmcsField::GUEST_RDX => 0x682E,
        VmcsField::GUEST_RSI => 0x6830,
        VmcsField::GUEST_RDI => 0x6832,
        VmcsField::GUEST_RBP => 0x6834,
        VmcsField::GUEST_R8 => 0x6836,
        VmcsField::GUEST_R9 => 0x6838,
        VmcsField::GUEST_R10 => 0x683A,
        VmcsField::GUEST_R11 => 0x683C,
        VmcsField::GUEST_R12 => 0x683E,
        VmcsField::GUEST_R13 => 0x6840,
        VmcsField::GUEST_R14 => 0x6842,
        VmcsField::GUEST_R15 => 0x6844,
        VmcsField::HOST_CR0 => 0x6C00,
        VmcsField::HOST_CR3 => 0x6C02,
        VmcsField::HOST_CR4 => 0x6C04,
        VmcsField::HOST_FS_BASE => 0x6C06,
        VmcsField::HOST_GS_BASE => 0x6C08,
        VmcsField::HOST_TR_BASE => 0x6C0A,
        VmcsField::HOST_GDTR_BASE => 0x6C0C,
        VmcsField::HOST_IDTR_BASE => 0x6C0E,
        VmcsField::HOST_IA32_SYSENTER_ESP => 0x6C10,
        VmcsField::HOST_IA32_SYSENTER_EIP => 0x6C12,
        VmcsField::HOST_RSP => 0x6C14,
        VmcsField::HOST_RIP => 0x6C16,
    }
}

impl VmcsField {
    /// The encoding VMREAD and VMWRITE take for this field.
    pub fn encoding(self) -> (e: u32)
        ensures
            e == field_encoding(self),
    {
        match self {
            VmcsField::VIRTUAL_PROCESSOR_ID => 0x0000,
            VmcsField::POSTED_INTR_NOTIFICATION => 0x0002,
            VmcsField::EPTP_INDEX => 0x0004,
            VmcsField::GUEST_ES_SELECTOR => 0x0800,
            VmcsField::GUEST_CS_SELECTOR => 0x0802,
            VmcsField::GUEST_SS_SELECTOR => 0x0804,
            VmcsField::GUEST_DS_SELECTOR => 0x0806,
            VmcsField::GUEST_FS_SELECTOR => 0x0808,
            VmcsField::GUEST_GS_SELECTOR => 0x080A,
            VmcsField::GUEST_LDTR_SELECTOR => 0x080C,
            VmcsField::GUEST_TR_SELECTOR => 0x080E,
            VmcsField::GUEST_INTR_STATUS => 0x0810,
            VmcsField::GUEST_PML_INDEX => 0x0812,
            VmcsField::HOST_ES_SELECTOR => 0x0C00,
            VmcsField::HOST_CS_SELECTOR => 0x0C02,
            VmcsField::HOST_SS_SELECTOR => 0x0C04,
            VmcsField::HOST_DS_SELECTOR => 0x0C06,
            VmcsField::HOST_FS_SELECTOR => 0x0C08,
            VmcsField::HOST_GS_SELECTOR => 0x0C0A,
            VmcsField::HOST_TR_SELECTOR => 0x0C0C,
            VmcsField::IO_BITMAP_A => 0x2000,
            VmcsField::IO_BITMAP_B => 0x2002,
            VmcsField::MSR_BITMAP => 0x2004,
            VmcsField::VM_EXIT_MSR_STORE_ADDR => 0x2006,
            VmcsField::VM_EXIT_MSR_LOAD_ADDR => 0x2008,
            VmcsField::VM_ENTRY_MSR_LOAD_ADDR => 0x200A,
            VmcsField::EXECUTIVE_VMCS_POINTER => 0x200C,
            VmcsField::PML_ADDRESS => 0x200E,
            VmcsField::TSC_OFFSET => 0x2010,
            VmcsField::VIRTUAL_APIC_PAGE_ADDR => 0x2012,
            VmcsField::APIC_ACCESS_ADDR => 0x2014,
            VmcsField::POSTED_INTR_DESC_ADDR => 0x2016,
            VmcsField::VM_FUNCTION_CONTROL => 0x2018,
            VmcsField::EPT_POINTER => 0x201A,
            VmcsField::EOI_EXIT_BITMAP0 => 0x201C,
            VmcsField::EOI_EXIT_BITMAP1 => 0x201E,
            VmcsField::EOI_EXIT_BITMAP2 => 0x2020,
            VmcsField::EOI_EXIT_BITMAP3 => 0x2022,
            VmcsField::EPTP_LIST_ADDRESS => 0x2024,
            VmcsField::VMREAD_BITMAP => 0x2026,
            VmcsField::VMWRITE_BITMAP => 0x2028,
            VmcsField::VE_INFO_ADDRESS => 0x202A,
            VmcsField::XSS_EXIT_BITMAP => 0x202C,
            VmcsField::ENCLS_EXITING_BITMAP => 0x202E,
            VmcsField::SUB_PAGE_PERM_TABLE_PTR => 0x2030,
            VmcsField::TSC_MULTIPLIER => 0x2032,
            VmcsField::GUEST_PHYS_ADDR => 0x2400,
            VmcsField::VMCS_LINK_POINTER => 0x2800,
            VmcsField::GUEST_IA32_DEBUGCTL => 0x2802,
            VmcsField::GUEST_IA32_PAT => 0x2804,
            VmcsField::GUEST_IA32_EFER => 0x2806,
            VmcsField::GUEST_IA32_PERF_GLOBAL_CTRL => 0x2808,
            VmcsField::GUEST_PDPTR0 => 0x280A,
            VmcsField::GUEST_PDPTR1 => 0x280C,
            VmcsField::GUEST_PDPTR2 => 0x280E,
            VmcsField::GUEST_PDPTR3 => 0x2810,
            VmcsField::GUEST_IA32_BNDCFGS => 0x2812,
            VmcsField::GUEST_IA32_RTIT_CTL => 0x2814,
            VmcsField::HOST_IA32_PAT => 0x2C00,
            VmcsField::HOST_IA32_EFER => 0x2C02,
            VmcsField::HOST_IA32_PERF_GLOBAL_CTRL => 0x2C04,
            VmcsField::PIN_BASED_VM_EXEC_CONTROL => 0x4000,
            VmcsField::CPU_BASED_VM_EXEC_CONTROL => 0x4002,
            VmcsField::EXCEPTION_BITMAP => 0x4004,
            VmcsField::PAGE_FAULT_ERROR_CODE_MASK => 0x4006,
            VmcsField::PAGE_FAULT_ERROR_CODE_MATCH => 0x4008,
            VmcsField::CR3_TARGET_COUNT => 0x400A,
            VmcsField::VM_EXIT_CONTROLS => 0x400C,
            VmcsField::VM_EXIT_MSR_STORE_COUNT => 0x400E,
            VmcsField::VM_EXIT_MSR_LOAD_COUNT => 0x4010,
            VmcsField::VM_ENTRY_CONTROLS => 0x4012,
            VmcsField::VM_ENTRY_MSR_LOAD_COUNT => 0x4014,
            VmcsField::VM_ENTRY_INTR_INFO_FIELD => 0x4016,
            VmcsField::VM_ENTRY_EXCEPTION_ERROR_CODE => 0x4018,
            VmcsField::VM_ENTRY_INSTRUCTION_LEN => 0x401A,
            VmcsField::TPR_THRESHOLD => 0x401C,
            VmcsField::SECONDARY_VM_EXEC_CONTROL => 0x401E,
            VmcsField::PLE_GAP => 0x4020,
            VmcsField::PLE_WINDOW => 0x4022,
            VmcsField::VM_INSTRUCTION_ERROR => 0x4400,
            VmcsField::EXIT_REASON => 0x4402,
            VmcsField::VM_EXIT_INTR_INFO => 0x4404,
            VmcsField::VM_EXIT_INTR_ERROR_CODE => 0x4406,
            VmcsField::IDT_VECTORING_INFO_FIELD => 0x4408,
            VmcsField::IDT_VECTORING_ERROR_CODE => 0x440A,
            VmcsField::VM_EXIT_INSTRUCTION_LEN => 0x440C,
            VmcsField::VMX_INSTRUCTION_INFO => 0x440E,
            VmcsField::GUEST_ES_LIMIT => 0x4800,
            VmcsField::GUEST_CS_LIMIT => 0x4802,
            VmcsField::GUEST_SS_LIMIT => 0x4804,
            VmcsField::GUEST_DS_LIMIT => 0x4806,
            VmcsField::GUEST_FS_LIMIT => 0x4808,
            VmcsField::GUEST_GS_LIMIT => 0x480A,
            VmcsField::GUEST_LDTR_LIMIT => 0x480C,
            VmcsField::GUEST_TR_LIMIT => 0x480E,
            VmcsField::GUEST_GDTR_LIMIT => 0x4810,
            VmcsField::GUEST_IDTR_LIMIT => 0x4812,
            VmcsField::GUEST_ES_AR_BYTES => 0x4814,
            VmcsField::GUEST_CS_AR_BYTES => 0x4816,
            VmcsField::GUEST_SS_AR_BYTES => 0x4818,
            VmcsField::GUEST_DS_AR_BYTES => 0x481A,
            VmcsField::GUEST_FS_AR_BYTES => 0x481C,
            VmcsField::GUEST_GS_AR_BYTES => 0x481E,
            VmcsField::GUEST_LDTR_AR_BYTES => 0x4820,
            VmcsField::GUEST_TR_AR_BYTES => 0x4822,
            VmcsField::GUEST_INTERRUPTIBILITY_INFO => 0x4824,
            VmcsField::GUEST_ACTIVITY_STATE => 0x4826,
            VmcsField::GUEST_SMBASE => 0x4828,
            VmcsField::GUEST_IA32_SYSENTER_CS => 0x482A,
            VmcsField::VMX_PREEMPTION_TIMER_VALUE => 0x482E,
            VmcsField::HOST_IA32_SYSENTER_CS => 0x4C00,
            VmcsField::CR0_GUEST_HOST_MASK => 0x6000,
            VmcsField::CR4_GUEST_HOST_MASK => 0x6002,
            VmcsField::CR0_READ_SHADOW => 0x6004,
            VmcsField::CR4_READ_SHADOW => 0x6006,
            VmcsField::CR3_TARGET_VALUE0 => 0x6008,
            VmcsField::CR3_TARGET_VALUE1 => 0x600A,
            VmcsField::CR3_TARGET_VALUE2 => 0x600C,
            VmcsField::CR3_TARGET_VALUE3 => 0x600E,
            VmcsField::EXIT_QUALIFICATION => 0x6400,
            VmcsField::IO_RCX => 0x6402,
            VmcsField::IO_RSI => 0x6404,
            VmcsField::IO_RDI => 0x6406,
            VmcsField::IO_RIP => 0x6408,
            VmcsField::GUEST_LINEAR_ADDR => 0x640A,
            VmcsField::GUEST_CR0 => 0x6800,
            VmcsField::GUEST_CR3 => 0x6802,
            VmcsField::GUEST_CR4 => 0x6804,
            VmcsField::GUEST_ES_BASE => 0x6806,
            VmcsField::GUEST_CS_BASE => 0x6808,
            VmcsField::GUEST_SS_BASE => 0x680A,
            VmcsField::GUEST_DS_BASE => 0x680C,
            VmcsField::GUEST_FS_BASE => 0x680E,
            VmcsField::GUEST_GS_BASE => 0x6810,
            VmcsField::GUEST_LDTR_BASE => 0x6812,
            VmcsField::GUEST_TR_BASE => 0x6814,
            VmcsField::GUEST_GDTR_BASE => 0x6816,
            VmcsField::GUEST_IDTR_BASE => 0x6818,
            VmcsField::GUEST_DR7 => 0x681A,
            VmcsField::GUEST_RSP => 0x681C,
            VmcsField::GUEST_RIP => 0x681E,
            VmcsField::GUEST_RFLAGS => 0x6820,
            VmcsField::GUEST_PENDING_DBG_EXCEPTIONS => 0x6822,
            VmcsField::GUEST_IA32_SYSENTER_ESP => 0x6824,
            VmcsField::GUEST_IA32_SYSENTER_EIP => 0x6826,
            VmcsField::GUEST_RAX => 0x6828,
            VmcsField::GUEST_RBX => 0x682A,
            VmcsField::GUEST_RCX => 0x682C,
            VmcsField::GUEST_RDX => 0x682E,
            VmcsField::GUEST_RSI => 0x6830,
            VmcsField::GUEST_RDI => 0x6832,
            VmcsField::GUEST_RBP => 0x6834,
            VmcsField::GUEST_R8 => 0x6836,
            VmcsField::GUEST_R9 => 0x6838,
            VmcsField::GUEST_R10 => 0x683A,
            VmcsField::GUEST_R11 => 0x683C,
            VmcsField::GUEST_R12 => 0x683E,
            VmcsField::GUEST_R13 => 0x6840,
            VmcsField::GUEST_R14 => 0x6842,
            VmcsField::GUEST_R15 => 0x6844,
            VmcsField::HOST_CR0 => 0x6C00,
            VmcsField::HOST_CR3 => 0x6C02,
            VmcsField::HOST_CR4 => 0x6C04,
            VmcsField::HOST_FS_BASE => 0x6C06,
            VmcsField::HOST_GS_BASE => 0x6C08,
            VmcsField::HOST_TR_BASE => 0x6C0A,
            VmcsField::HOST_GDTR_BASE => 0x6C0C,
            VmcsField::HOST_IDTR_BASE => 0x6C0E,
            VmcsField::HOST_IA32_SYSENTER_ESP => 0x6C10,
            VmcsField::HOST_IA32_SYSENTER_EIP => 0x6C12,
            VmcsField::HOST_RSP => 0x6C14,
            VmcsField::HOST_RIP => 0x6C16,
        }
    }
}

/// Width of a field from its encoding (bits 14:13): 0 16-bit, 1 64-bit,
/// 2 32-bit, 3 natural width.
pub open spec fn field_width(f: VmcsField) -> u32 {
    (field_encoding(f) >> 13u32) & 3
}

} // verus!
