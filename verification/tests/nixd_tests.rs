use lsp_client_pool::capabilities::tracked_capabilities;
use lsp_client_pool::language::path_extension;
use lsp_client_pool::{
    detect_language, get_language_id, CapabilitiesSummary, ClientCapabilities, ClientInfo,
    DocumentSymbolCapability, GotoCapability, Language, LanguageAdapter, NixdAdapter,
    RegistrationCapability, SymbolKind, TraceValue, WorkspaceFolder,
};

#[test]
fn test_nix_adapter_creation() {
    let adapter = NixdAdapter::new();
    assert_eq!(adapter.language_id(), "nix");
    assert_eq!(adapter.supported_extensions(), vec!["nix"]);
}

#[test]
fn test_nix_adapter_patterns() {
    let adapter = NixdAdapter::new();

    assert_eq!(adapter.definition_patterns().len(), 0);

    let pattern = adapter.build_reference_pattern("nixpkgs", &SymbolKind::Variable);
    assert!(pattern.contains("nixpkgs"));
}

#[test]
fn test_nix_file_detection() {
    let adapter = NixdAdapter::new();
    let extensions = adapter.supported_extensions();
    assert!(extensions.contains(&"nix"));
    assert_eq!(adapter.language_id(), "nix");
}

#[test]
fn reference_pattern_is_the_escaped_name_between_word_boundaries() {
    let adapter = NixdAdapter::new();
    assert_eq!(adapter.build_reference_pattern("nixpkgs", &SymbolKind::Variable), "\\bnixpkgs\\b");
    assert_eq!(adapter.build_reference_pattern("flake-utils.lib", &SymbolKind::Module), "\\bflake\\-utils\\.lib\\b");
    assert_eq!(adapter.build_reference_pattern("a+b", &SymbolKind::Function), "\\ba\\+b\\b");
    assert_eq!(adapter.build_reference_pattern("", &SymbolKind::Function), "\\b\\b");
    assert_eq!(
        adapter.build_reference_pattern("\\.+*?()|[]{}^$#&-~", &SymbolKind::Constant),
        "\\b\\\\\\.\\+\\*\\?\\(\\)\\|\\[\\]\\{\\}\\^\\$\\#\\&\\-\\~\\b"
    );
    assert_eq!(adapter.build_reference_pattern("a%b/c", &SymbolKind::Field), "\\ba%b/c\\b");
}

#[test]
fn definition_context_ends_with_a_binder() {
    let adapter = NixdAdapter::new();
    let line = "  pkgs = import nixpkgs { };";
    assert!(adapter.is_definition_context(line, 8));
    assert!(adapter.is_definition_context(line, 9));
    assert!(!adapter.is_definition_context(line, 7));
    assert!(!adapter.is_definition_context(line, 6));
    assert!(!adapter.is_definition_context(line, 0));
    assert!(adapter.is_definition_context("x: x + 1", 2));
    assert!(adapter.is_definition_context("x: x + 1", 3));
    assert!(!adapter.is_definition_context("x: x + 1", 4));
    // The no-break space takes two bytes: offset 6 lies inside it.
    assert!(adapter.is_definition_context("a =\t \u{a0}", 7));
    assert!(adapter.is_definition_context("a =\t \u{a0}", 5));
    assert!(!adapter.is_definition_context("a =\t \u{a0}", 6));
    assert!(!adapter.is_definition_context("a =\t \u{a0}", 8));
    assert!(adapter.is_definition_context("größe = 1", 9));
    assert!(adapter.is_definition_context("größe = 1", 10));
    assert!(!adapter.is_definition_context("größe = 1", 8));
    assert!(!adapter.is_definition_context("ö=", 1));
    assert!(adapter.is_definition_context("ö=", 3));
}

#[test]
fn definition_context_stops_at_the_end_of_the_line() {
    let adapter = NixdAdapter::new();
    assert!(adapter.is_definition_context("a =", 3));
    assert!(!adapter.is_definition_context("a =", 4));
    assert!(!adapter.is_definition_context("", 0));
    assert!(!adapter.is_definition_context("", 1));
    assert!(!adapter.is_definition_context("   ", 3));
}

#[test]
fn a_position_after_a_hash_is_in_a_comment() {
    let adapter = NixdAdapter::new();
    let line = "x = 1; # the answer";
    assert!(!adapter.is_in_string_or_comment(line, 0));
    assert!(!adapter.is_in_string_or_comment(line, 7));
    assert!(adapter.is_in_string_or_comment(line, 8));
    assert!(adapter.is_in_string_or_comment(line, 12));
    assert!(adapter.is_in_string_or_comment(line, 1_000));
    assert!(!adapter.is_in_string_or_comment("x = \"a\";", 6));
    assert!(!adapter.is_in_string_or_comment("", 3));
    // Offsets count bytes: the hash in "é # x" is at offset 3.
    assert!(!adapter.is_in_string_or_comment("é # x", 3));
    assert!(adapter.is_in_string_or_comment("é # x", 4));
    assert!(!adapter.is_in_string_or_comment("é # x", 1));
}

#[test]
fn init_params_name_the_workspace() {
    let adapter = NixdAdapter::new();
    let params = adapter.init_params_for(4242, "file:///home/user/flake");
    assert_eq!(params.process_id, Some(4242));
    assert_eq!(params.root_uri, Some("file:///home/user/flake".to_string()));
    assert_eq!(params.formatting_command, vec!["nixpkgs-fmt".to_string()]);
    assert_eq!(params.trace, Some(TraceValue::Off));
    assert_eq!(
        params.workspace_folders,
        vec![WorkspaceFolder { uri: "file:///home/user/flake".to_string(), name: "nixd-workspace".to_string() }]
    );
    assert_eq!(
        params.client_info,
        Some(ClientInfo { name: "lsif-indexer".to_string(), version: Some("0.1.0".to_string()) })
    );
    assert_eq!(
        params.capabilities,
        ClientCapabilities {
            document_symbol: Some(DocumentSymbolCapability {
                dynamic_registration: Some(false),
                hierarchical_document_symbol_support: Some(true),
            }),
            definition: Some(GotoCapability { dynamic_registration: Some(false), link_support: Some(false) }),
            references: Some(RegistrationCapability { dynamic_registration: Some(false) }),
            workspace_symbol: Some(RegistrationCapability { dynamic_registration: Some(false) }),
        }
    );
}

#[test]
fn workspace_uri_is_the_file_url_of_an_absolute_directory() {
    let adapter = NixdAdapter::new();
    let params = adapter.get_init_params(1, "/home/user/my flake", "/somewhere/else");
    assert_eq!(params.root_uri, Some("file:///home/user/my%20flake".to_string()));
    assert_eq!(params.workspace_folders[0].uri, "file:///home/user/my%20flake");
    let root = adapter.get_init_params(1, "/", "/");
    assert_eq!(root.root_uri, Some("file:///".to_string()));
}

#[test]
fn workspace_uri_of_a_relative_directory_comes_from_the_canonical_form() {
    let adapter = NixdAdapter::new();
    let params = adapter.get_init_params(7, "my flake", "/home/user/my flake");
    assert_eq!(params.root_uri, Some("file:///home/user/my%20flake".to_string()));
    assert_eq!(params.process_id, Some(7));
}

#[test]
fn workspace_uri_falls_back_to_tmp() {
    let adapter = NixdAdapter::new();
    let params = adapter.get_init_params(7, "relative", "[");
    assert_eq!(params.root_uri, Some("file:///tmp".to_string()));
    assert_eq!(params.workspace_folders[0].uri, "file:///tmp");
}

#[test]
fn languages_are_detected_by_extension() {
    assert_eq!(detect_language("src/main.rs"), Some(Language::Rust));
    assert_eq!(detect_language("index.ts"), Some(Language::TypeScript));
    assert_eq!(detect_language("index.js"), Some(Language::JavaScript));
    assert_eq!(detect_language("/a/b/tool.py"), Some(Language::Python));
    assert_eq!(detect_language("main.go"), Some(Language::Go));
    assert_eq!(detect_language("App.java"), Some(Language::Java));
    assert_eq!(detect_language("flake.nix"), Some(Language::Nix));
    assert_eq!(detect_language("archive.tar.rs"), Some(Language::Rust));
    assert_eq!(detect_language("notes.xyz123"), None);
    assert_eq!(detect_language("main.RS"), None);
    assert_eq!(detect_language("rs"), None);
    assert_eq!(detect_language(".nix"), None);
    assert_eq!(detect_language("dir/.nix"), None);
    assert_eq!(detect_language("some.rs/file"), None);
    assert_eq!(detect_language("dir.d/main.rs"), Some(Language::Rust));
    assert_eq!(detect_language("file."), None);
    assert_eq!(detect_language(""), None);
    assert_eq!(get_language_id("flake.nix"), Some("nix"));
    assert_eq!(get_language_id("flake.lock"), None);
}

#[test]
fn extension_is_what_follows_the_last_dot_of_the_file_name() {
    assert_eq!(path_extension("a/b/c.tar.gz"), Some("gz"));
    assert_eq!(path_extension("a.b/c"), None);
    assert_eq!(path_extension(".hidden"), None);
    assert_eq!(path_extension("a/.hidden"), None);
    assert_eq!(path_extension(".hidden.txt"), Some("txt"));
    assert_eq!(path_extension("trailing."), Some(""));
    assert_eq!(path_extension("é.ñ"), Some("ñ"));
    assert_eq!(path_extension("dir/"), None);
}

#[test]
fn language_identifiers_and_extensions() {
    let all = [
        (Language::Rust, "rust", "rs"),
        (Language::TypeScript, "typescript", "ts"),
        (Language::JavaScript, "javascript", "js"),
        (Language::Python, "python", "py"),
        (Language::Go, "go", "go"),
        (Language::Java, "java", "java"),
        (Language::Nix, "nix", "nix"),
    ];
    for (language, id, extension) in all {
        assert_eq!(language.language_id(), id);
        assert_eq!(language.file_extension(), extension);
        assert_eq!(Language::from_language_id(id), Some(language));
        assert_eq!(Language::from_extension(extension), Some(language));
    }
    assert_eq!(Language::from_language_id("rs"), None);
    assert_eq!(Language::from_extension("rust"), None);
    assert_eq!(NixdAdapter::new().language(), Language::Nix);
}

#[test]
fn summary_answers_by_capability_name() {
    let answers = vec![true, false, true, false, true, false, true, false];
    let summary = CapabilitiesSummary::from_answers(&answers);
    let names = tracked_capabilities();
    assert_eq!(
        names,
        vec![
            "textDocument/documentSymbol",
            "textDocument/definition",
            "textDocument/references",
            "textDocument/typeDefinition",
            "textDocument/implementation",
            "workspace/symbol",
            "textDocument/prepareCallHierarchy",
            "textDocument/semanticTokens",
        ]
    );
    for index in 0..8 {
        assert_eq!(summary.supports(names[index]), answers[index]);
    }
    assert!(!summary.supports("textDocument/hover"));
    assert!(!summary.supports(""));

    let short = CapabilitiesSummary::from_answers(&vec![true, true]);
    assert!(short.supports_document_symbol);
    assert!(short.supports_definition);
    assert!(!short.supports_references);
    assert_eq!(CapabilitiesSummary::from_answers(&vec![]), CapabilitiesSummary::none());
}
