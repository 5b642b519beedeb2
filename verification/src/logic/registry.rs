//! The Developer Registry: the one place that names a program.
//!
//! A *service* is an observed fact (a process holding a listening socket on a
//! non-system port). Whether a service is part of the user's development work
//! cannot be observed, so it is decided against the tables below: programs
//! whose name alone is a development signature, general-purpose runtimes that
//! need a command-line signature, the command-line signatures themselves, and
//! programs that are never development services.
//!
//! No entry is a port number, no entry is a parent process, and nothing is
//! scored. Every lookup is an exact, ASCII-case-insensitive comparison of a
//! whole name; a name matches no prefix and no substring.
use vstd::prelude::*;

use crate::text::{chars_of, is_ascii_alphabetic, is_ascii_digit, lower_seq, eq_ignore_case};

verus! {

/// Bumped on every change to the tables below, so a classification can be
/// pinned to the tables that produced it.
pub const REGISTRY_VERSION: u32 = 1;

/// What kind of evidence an executable's name provides.
#[derive(Debug, Clone, Copy, PartialEq, Eq, Structural)]
pub enum Evidence {
    /// The program exists to serve development; its name alone is enough.
    Dedicated,
    /// A general-purpose runtime; its name alone proves nothing and a
    /// command-line signature is required.
    Runtime,
}

/// One registered developer executable.
#[derive(Debug, Clone, Copy)]
pub struct Program {
    /// Lowercase executable stem, without `.exe`.
    pub stem: &'static str,
    /// How the program is written in a reason.
    pub display: &'static str,
    pub evidence: Evidence,
    /// Predicate phrase, used as `"{display} is {category}"`.
    pub category: &'static str,
}

/// What a matched command-line token proves.
#[derive(Debug, Clone, Copy, PartialEq, Eq, Structural)]
pub enum SignatureKind {
    /// Names a specific development tool: `vite`, `uvicorn`, `rails`.
    Tool,
    /// A development command verb: `dev`, `serve`, `watch`.
    Verb,
    /// A project-layout marker: `node_modules`, `.venv`.
    Workspace,
}

/// One registered command-line token.
#[derive(Debug, Clone, Copy)]
pub struct Signature {
    /// Lowercase token, matched against whole tokens only.
    pub token: &'static str,
    pub display: &'static str,
    pub kind: SignatureKind,
}

/// One program that is definitively not a development service.
#[derive(Debug, Clone, Copy)]
pub struct Excluded {
    pub stem: &'static str,
    pub display: &'static str,
    pub category: &'static str,
}

// ------------------------------------------------------------------ the tables

/// Programs whose name is itself a development signature.
pub open spec fn spec_dedicated() -> Seq<Program> {
    seq![
        Program { stem: "mongod", display: "MongoDB", evidence: Evidence::Dedicated, category: "a database server" },
        Program { stem: "mysqld", display: "MySQL", evidence: Evidence::Dedicated, category: "a database server" },
        Program { stem: "mariadbd", display: "MariaDB", evidence: Evidence::Dedicated, category: "a database server" },
        Program { stem: "postgres", display: "PostgreSQL", evidence: Evidence::Dedicated, category: "a database server" },
        Program { stem: "pg_ctl", display: "PostgreSQL", evidence: Evidence::Dedicated, category: "a database server" },
        Program { stem: "redis-server", display: "Redis", evidence: Evidence::Dedicated, category: "a database server" },
        Program { stem: "memcached", display: "Memcached", evidence: Evidence::Dedicated, category: "a database server" },
        Program { stem: "influxd", display: "InfluxDB", evidence: Evidence::Dedicated, category: "a database server" },
        Program { stem: "clickhouse-server", display: "ClickHouse", evidence: Evidence::Dedicated, category: "a database server" },
        Program { stem: "cockroach", display: "CockroachDB", evidence: Evidence::Dedicated, category: "a database server" },
        Program { stem: "etcd", display: "etcd", evidence: Evidence::Dedicated, category: "a database server" },
        Program { stem: "surreal", display: "SurrealDB", evidence: Evidence::Dedicated, category: "a database server" },
        Program { stem: "neo4j", display: "Neo4j", evidence: Evidence::Dedicated, category: "a database server" },
        Program { stem: "couchdb", display: "CouchDB", evidence: Evidence::Dedicated, category: "a database server" },
        Program { stem: "cassandra", display: "Cassandra", evidence: Evidence::Dedicated, category: "a database server" },
        Program { stem: "meilisearch", display: "Meilisearch", evidence: Evidence::Dedicated, category: "a search engine" },
        Program { stem: "typesense-server", display: "Typesense", evidence: Evidence::Dedicated, category: "a search engine" },
        Program { stem: "qdrant", display: "Qdrant", evidence: Evidence::Dedicated, category: "a search engine" },
        Program { stem: "weaviate", display: "Weaviate", evidence: Evidence::Dedicated, category: "a search engine" },
        Program { stem: "opensearch", display: "OpenSearch", evidence: Evidence::Dedicated, category: "a search engine" },
        Program { stem: "nats-server", display: "NATS", evidence: Evidence::Dedicated, category: "a message broker" },
        Program { stem: "rabbitmq-server", display: "RabbitMQ", evidence: Evidence::Dedicated, category: "a message broker" },
        Program { stem: "mosquitto", display: "Mosquitto", evidence: Evidence::Dedicated, category: "a message broker" },
        Program { stem: "minio", display: "MinIO", evidence: Evidence::Dedicated, category: "an object storage server" },
        Program { stem: "dockerd", display: "Docker", evidence: Evidence::Dedicated, category: "a container runtime" },
        Program { stem: "docker", display: "Docker", evidence: Evidence::Dedicated, category: "a container runtime" },
        Program { stem: "com.docker.backend", display: "Docker Desktop", evidence: Evidence::Dedicated, category: "a container runtime" },
        Program { stem: "containerd", display: "containerd", evidence: Evidence::Dedicated, category: "a container runtime" },
        Program { stem: "podman", display: "Podman", evidence: Evidence::Dedicated, category: "a container runtime" },
        Program { stem: "minikube", display: "minikube", evidence: Evidence::Dedicated, category: "a container runtime" },
        Program { stem: "k3s", display: "k3s", evidence: Evidence::Dedicated, category: "a container runtime" },
        Program { stem: "nginx", display: "nginx", evidence: Evidence::Dedicated, category: "a web server" },
        Program { stem: "httpd", display: "Apache httpd", evidence: Evidence::Dedicated, category: "a web server" },
        Program { stem: "caddy", display: "Caddy", evidence: Evidence::Dedicated, category: "a web server" },
        Program { stem: "traefik", display: "Traefik", evidence: Evidence::Dedicated, category: "a web server" },
        Program { stem: "ngrok", display: "ngrok", evidence: Evidence::Dedicated, category: "a local tunnel" },
        Program { stem: "cloudflared", display: "Cloudflare Tunnel", evidence: Evidence::Dedicated, category: "a local tunnel" },
        Program { stem: "supabase", display: "Supabase", evidence: Evidence::Dedicated, category: "a backend development platform" },
        Program { stem: "localstack", display: "LocalStack", evidence: Evidence::Dedicated, category: "a local cloud emulator" },
        Program { stem: "azurite", display: "Azurite", evidence: Evidence::Dedicated, category: "a local cloud emulator" },
        Program { stem: "adb", display: "Android Debug Bridge", evidence: Evidence::Dedicated, category: "part of a mobile toolchain" },
        Program { stem: "emulator", display: "Android Emulator", evidence: Evidence::Dedicated, category: "part of a mobile toolchain" },
        Program { stem: "hugo", display: "Hugo", evidence: Evidence::Dedicated, category: "a static site generator" },
        Program { stem: "trunk", display: "Trunk", evidence: Evidence::Dedicated, category: "a build tool" },
        Program { stem: "gradle", display: "Gradle", evidence: Evidence::Dedicated, category: "a build tool" },
        Program { stem: "mailhog", display: "MailHog", evidence: Evidence::Dedicated, category: "a development mail server" },
        Program { stem: "ollama", display: "Ollama", evidence: Evidence::Dedicated, category: "a local model server" },
    ]
}

/// General-purpose runtimes, registered so that a command-line signature can
/// be attributed to something, never so that the name alone classifies.
pub open spec fn spec_runtimes() -> Seq<Program> {
    seq![
        Program { stem: "node", display: "Node.js", evidence: Evidence::Runtime, category: "a general-purpose language runtime" },
        Program { stem: "deno", display: "Deno", evidence: Evidence::Runtime, category: "a general-purpose language runtime" },
        Program { stem: "bun", display: "Bun", evidence: Evidence::Runtime, category: "a general-purpose language runtime" },
        Program { stem: "python", display: "Python", evidence: Evidence::Runtime, category: "a general-purpose language runtime" },
        Program { stem: "python3", display: "Python", evidence: Evidence::Runtime, category: "a general-purpose language runtime" },
        Program { stem: "pythonw", display: "Python", evidence: Evidence::Runtime, category: "a general-purpose language runtime" },
        Program { stem: "py", display: "Python", evidence: Evidence::Runtime, category: "a general-purpose language runtime" },
        Program { stem: "ruby", display: "Ruby", evidence: Evidence::Runtime, category: "a general-purpose language runtime" },
        Program { stem: "php", display: "PHP", evidence: Evidence::Runtime, category: "a general-purpose language runtime" },
        Program { stem: "perl", display: "Perl", evidence: Evidence::Runtime, category: "a general-purpose language runtime" },
        Program { stem: "java", display: "Java", evidence: Evidence::Runtime, category: "a general-purpose language runtime" },
        Program { stem: "javaw", display: "Java", evidence: Evidence::Runtime, category: "a general-purpose language runtime" },
        Program { stem: "dotnet", display: ".NET", evidence: Evidence::Runtime, category: "a general-purpose language runtime" },
        Program { stem: "dart", display: "Dart", evidence: Evidence::Runtime, category: "a general-purpose language runtime" },
        Program { stem: "elixir", display: "Elixir", evidence: Evidence::Runtime, category: "a general-purpose language runtime" },
        Program { stem: "erl", display: "Erlang", evidence: Evidence::Runtime, category: "a general-purpose language runtime" },
    ]
}

/// Command-line tokens that identify development work.
pub open spec fn spec_signatures() -> Seq<Signature> {
    seq![
        Signature { token: "vite", display: "Vite", kind: SignatureKind::Tool },
        Signature { token: "next", display: "Next.js", kind: SignatureKind::Tool },
        Signature { token: "nuxt", display: "Nuxt", kind: SignatureKind::Tool },
        Signature { token: "astro", display: "Astro", kind: SignatureKind::Tool },
        Signature { token: "remix", display: "Remix", kind: SignatureKind::Tool },
        Signature { token: "webpack", display: "webpack", kind: SignatureKind::Tool },
        Signature { token: "webpack-dev-server", display: "webpack-dev-server", kind: SignatureKind::Tool },
        Signature { token: "rollup", display: "Rollup", kind: SignatureKind::Tool },
        Signature { token: "parcel", display: "Parcel", kind: SignatureKind::Tool },
        Signature { token: "esbuild", display: "esbuild", kind: SignatureKind::Tool },
        Signature { token: "nodemon", display: "nodemon", kind: SignatureKind::Tool },
        Signature { token: "ts-node", display: "ts-node", kind: SignatureKind::Tool },
        Signature { token: "tsx", display: "tsx", kind: SignatureKind::Tool },
        Signature { token: "tsc", display: "TypeScript compiler", kind: SignatureKind::Tool },
        Signature { token: "nest", display: "NestJS", kind: SignatureKind::Tool },
        Signature { token: "ng", display: "Angular CLI", kind: SignatureKind::Tool },
        Signature { token: "react-scripts", display: "react-scripts", kind: SignatureKind::Tool },
        Signature { token: "vue-cli-service", display: "Vue CLI", kind: SignatureKind::Tool },
        Signature { token: "sveltekit", display: "SvelteKit", kind: SignatureKind::Tool },
        Signature { token: "gatsby", display: "Gatsby", kind: SignatureKind::Tool },
        Signature { token: "eleventy", display: "Eleventy", kind: SignatureKind::Tool },
        Signature { token: "storybook", display: "Storybook", kind: SignatureKind::Tool },
        Signature { token: "vitest", display: "Vitest", kind: SignatureKind::Tool },
        Signature { token: "jest", display: "Jest", kind: SignatureKind::Tool },
        Signature { token: "playwright", display: "Playwright", kind: SignatureKind::Tool },
        Signature { token: "cypress", display: "Cypress", kind: SignatureKind::Tool },
        Signature { token: "expo", display: "Expo", kind: SignatureKind::Tool },
        Signature { token: "metro", display: "Metro", kind: SignatureKind::Tool },
        Signature { token: "wrangler", display: "Wrangler", kind: SignatureKind::Tool },
        Signature { token: "http-server", display: "http-server", kind: SignatureKind::Tool },
        Signature { token: "live-server", display: "live-server", kind: SignatureKind::Tool },
        Signature { token: "browser-sync", display: "BrowserSync", kind: SignatureKind::Tool },
        Signature { token: "json-server", display: "json-server", kind: SignatureKind::Tool },
        Signature { token: "strapi", display: "Strapi", kind: SignatureKind::Tool },
        Signature { token: "directus", display: "Directus", kind: SignatureKind::Tool },
        Signature { token: "payload", display: "Payload", kind: SignatureKind::Tool },
        Signature { token: "medusa", display: "Medusa", kind: SignatureKind::Tool },
        Signature { token: "sanity", display: "Sanity", kind: SignatureKind::Tool },
        Signature { token: "firebase", display: "Firebase CLI", kind: SignatureKind::Tool },
        Signature { token: "netlify", display: "Netlify CLI", kind: SignatureKind::Tool },
        Signature { token: "vercel", display: "Vercel CLI", kind: SignatureKind::Tool },
        Signature { token: "amplify", display: "Amplify CLI", kind: SignatureKind::Tool },
        Signature { token: "hardhat", display: "Hardhat", kind: SignatureKind::Tool },
        Signature { token: "truffle", display: "Truffle", kind: SignatureKind::Tool },
        Signature { token: "anvil", display: "Anvil", kind: SignatureKind::Tool },
        Signature { token: "pm2", display: "PM2", kind: SignatureKind::Tool },
        Signature { token: "nx", display: "Nx", kind: SignatureKind::Tool },
        Signature { token: "turbo", display: "Turborepo", kind: SignatureKind::Tool },
        Signature { token: "lerna", display: "Lerna", kind: SignatureKind::Tool },
        Signature { token: "npm", display: "npm", kind: SignatureKind::Tool },
        Signature { token: "pnpm", display: "pnpm", kind: SignatureKind::Tool },
        Signature { token: "yarn", display: "Yarn", kind: SignatureKind::Tool },
        Signature { token: "npx", display: "npx", kind: SignatureKind::Tool },
        Signature { token: "concurrently", display: "concurrently", kind: SignatureKind::Tool },
        Signature { token: "django", display: "Django", kind: SignatureKind::Tool },
        Signature { token: "manage", display: "Django manage.py", kind: SignatureKind::Tool },
        Signature { token: "flask", display: "Flask", kind: SignatureKind::Tool },
        Signature { token: "fastapi", display: "FastAPI", kind: SignatureKind::Tool },
        Signature { token: "uvicorn", display: "Uvicorn", kind: SignatureKind::Tool },
        Signature { token: "gunicorn", display: "Gunicorn", kind: SignatureKind::Tool },
        Signature { token: "hypercorn", display: "Hypercorn", kind: SignatureKind::Tool },
        Signature { token: "waitress-serve", display: "Waitress", kind: SignatureKind::Tool },
        Signature { token: "daphne", display: "Daphne", kind: SignatureKind::Tool },
        Signature { token: "celery", display: "Celery", kind: SignatureKind::Tool },
        Signature { token: "streamlit", display: "Streamlit", kind: SignatureKind::Tool },
        Signature { token: "gradio", display: "Gradio", kind: SignatureKind::Tool },
        Signature { token: "jupyter", display: "Jupyter", kind: SignatureKind::Tool },
        Signature { token: "jupyterlab", display: "JupyterLab", kind: SignatureKind::Tool },
        Signature { token: "notebook", display: "Jupyter Notebook", kind: SignatureKind::Tool },
        Signature { token: "mkdocs", display: "MkDocs", kind: SignatureKind::Tool },
        Signature { token: "pytest", display: "pytest", kind: SignatureKind::Tool },
        Signature { token: "mlflow", display: "MLflow", kind: SignatureKind::Tool },
        Signature { token: "tensorboard", display: "TensorBoard", kind: SignatureKind::Tool },
        Signature { token: "airflow", display: "Airflow", kind: SignatureKind::Tool },
        Signature { token: "dagster", display: "Dagster", kind: SignatureKind::Tool },
        Signature { token: "prefect", display: "Prefect", kind: SignatureKind::Tool },
        Signature { token: "scrapy", display: "Scrapy", kind: SignatureKind::Tool },
        Signature { token: "locust", display: "Locust", kind: SignatureKind::Tool },
        Signature { token: "rails", display: "Rails", kind: SignatureKind::Tool },
        Signature { token: "puma", display: "Puma", kind: SignatureKind::Tool },
        Signature { token: "unicorn", display: "Unicorn", kind: SignatureKind::Tool },
        Signature { token: "sidekiq", display: "Sidekiq", kind: SignatureKind::Tool },
        Signature { token: "jekyll", display: "Jekyll", kind: SignatureKind::Tool },
        Signature { token: "rackup", display: "Rack", kind: SignatureKind::Tool },
        Signature { token: "artisan", display: "Laravel Artisan", kind: SignatureKind::Tool },
        Signature { token: "symfony", display: "Symfony", kind: SignatureKind::Tool },
        Signature { token: "composer", display: "Composer", kind: SignatureKind::Tool },
        Signature { token: "spring", display: "Spring", kind: SignatureKind::Tool },
        Signature { token: "springboot", display: "Spring Boot", kind: SignatureKind::Tool },
        Signature { token: "quarkus", display: "Quarkus", kind: SignatureKind::Tool },
        Signature { token: "micronaut", display: "Micronaut", kind: SignatureKind::Tool },
        Signature { token: "tomcat", display: "Tomcat", kind: SignatureKind::Tool },
        Signature { token: "jetty", display: "Jetty", kind: SignatureKind::Tool },
        Signature { token: "gradlew", display: "Gradle wrapper", kind: SignatureKind::Tool },
        Signature { token: "gradle", display: "Gradle", kind: SignatureKind::Tool },
        Signature { token: "maven", display: "Maven", kind: SignatureKind::Tool },
        Signature { token: "mvn", display: "Maven", kind: SignatureKind::Tool },
        Signature { token: "aspnetcore", display: "ASP.NET Core", kind: SignatureKind::Tool },
        Signature { token: "dev", display: "dev", kind: SignatureKind::Verb },
        Signature { token: "serve", display: "serve", kind: SignatureKind::Verb },
        Signature { token: "server", display: "server", kind: SignatureKind::Verb },
        Signature { token: "watch", display: "watch", kind: SignatureKind::Verb },
        Signature { token: "start", display: "start", kind: SignatureKind::Verb },
        Signature { token: "run", display: "run", kind: SignatureKind::Verb },
        Signature { token: "runserver", display: "runserver", kind: SignatureKind::Verb },
        Signature { token: "develop", display: "develop", kind: SignatureKind::Verb },
        Signature { token: "node_modules", display: "a node_modules project directory", kind: SignatureKind::Workspace },
        Signature { token: ".venv", display: "a Python virtual environment", kind: SignatureKind::Workspace },
        Signature { token: "venv", display: "a Python virtual environment", kind: SignatureKind::Workspace },
        Signature { token: "site-packages", display: "a Python site-packages directory", kind: SignatureKind::Workspace },
    ]
}

/// Programs that can never be classified as development services. A
/// secondary guard: it is checked first, so no signature can promote one.
pub open spec fn spec_excluded() -> Seq<Excluded> {
    seq![
        Excluded { stem: "system", display: "the Windows kernel", category: "part of the operating system" },
        Excluded { stem: "smss", display: "Session Manager", category: "part of the operating system" },
        Excluded { stem: "csrss", display: "Client/Server Runtime", category: "part of the operating system" },
        Excluded { stem: "wininit", display: "Windows Start-Up", category: "part of the operating system" },
        Excluded { stem: "winlogon", display: "Windows Logon", category: "part of the operating system" },
        Excluded { stem: "services", display: "Service Control Manager", category: "part of the operating system" },
        Excluded { stem: "lsass", display: "Local Security Authority", category: "part of the operating system" },
        Excluded { stem: "svchost", display: "a Windows service host", category: "part of the operating system" },
        Excluded { stem: "spoolsv", display: "the Print Spooler", category: "part of the operating system" },
        Excluded { stem: "dwm", display: "the Desktop Window Manager", category: "part of the operating system" },
        Excluded { stem: "explorer", display: "Windows Explorer", category: "part of the operating system" },
        Excluded { stem: "searchindexer", display: "Windows Search", category: "part of the operating system" },
        Excluded { stem: "searchhost", display: "Windows Search", category: "part of the operating system" },
        Excluded { stem: "runtimebroker", display: "Runtime Broker", category: "part of the operating system" },
        Excluded { stem: "dllhost", display: "COM Surrogate", category: "part of the operating system" },
        Excluded { stem: "wmiprvse", display: "WMI Provider Host", category: "part of the operating system" },
        Excluded { stem: "taskhostw", display: "Task Host", category: "part of the operating system" },
        Excluded { stem: "sihost", display: "Shell Infrastructure Host", category: "part of the operating system" },
        Excluded { stem: "msmpeng", display: "Microsoft Defender", category: "security software" },
        Excluded { stem: "mssense", display: "Microsoft Defender for Endpoint", category: "security software" },
        Excluded { stem: "nissrv", display: "Microsoft Defender Network Inspection", category: "security software" },
        Excluded { stem: "trustedinstaller", display: "Windows Modules Installer", category: "part of the operating system" },
        Excluded { stem: "tiworker", display: "Windows Modules Installer Worker", category: "part of the operating system" },
        Excluded { stem: "usocoreworker", display: "Update Session Orchestrator", category: "part of the operating system" },
        Excluded { stem: "mousocoreworker", display: "Update Session Orchestrator", category: "part of the operating system" },
        Excluded { stem: "chrome", display: "Google Chrome", category: "a web browser" },
        Excluded { stem: "msedge", display: "Microsoft Edge", category: "a web browser" },
        Excluded { stem: "msedgewebview2", display: "the Edge WebView2 runtime", category: "a web browser" },
        Excluded { stem: "brave", display: "Brave", category: "a web browser" },
        Excluded { stem: "firefox", display: "Firefox", category: "a web browser" },
        Excluded { stem: "opera", display: "Opera", category: "a web browser" },
        Excluded { stem: "vivaldi", display: "Vivaldi", category: "a web browser" },
        Excluded { stem: "chromium", display: "Chromium", category: "a web browser" },
        Excluded { stem: "icloud", display: "iCloud", category: "a cloud sync client" },
        Excluded { stem: "iclouddrive", display: "iCloud Drive", category: "a cloud sync client" },
        Excluded { stem: "icloudphotos", display: "iCloud Photos", category: "a cloud sync client" },
        Excluded { stem: "icloudhome", display: "iCloud", category: "a cloud sync client" },
        Excluded { stem: "icloudckks", display: "iCloud sync", category: "a cloud sync client" },
        Excluded { stem: "icloudservices", display: "iCloud", category: "a cloud sync client" },
        Excluded { stem: "apsdaemon", display: "the Apple Push notification service", category: "a cloud sync client" },
        Excluded { stem: "applemobiledevicelauncher", display: "Apple Mobile Device Support", category: "device support software" },
        Excluded { stem: "applemobiledeviceprocess", display: "Apple Mobile Device Support", category: "device support software" },
        Excluded { stem: "applemobiledeviceservice", display: "Apple Mobile Device Support", category: "device support software" },
        Excluded { stem: "itunes", display: "iTunes", category: "a media application" },
        Excluded { stem: "mdnsresponder", display: "Bonjour", category: "device support software" },
        Excluded { stem: "onedrive", display: "OneDrive", category: "a cloud sync client" },
        Excluded { stem: "dropbox", display: "Dropbox", category: "a cloud sync client" },
        Excluded { stem: "googledrivefs", display: "Google Drive", category: "a cloud sync client" },
        Excluded { stem: "nvcontainer", display: "the NVIDIA container service", category: "a hardware vendor helper" },
        Excluded { stem: "nvidia web helper", display: "the NVIDIA web helper", category: "a hardware vendor helper" },
        Excluded { stem: "nvdisplay.container", display: "the NVIDIA display container", category: "a hardware vendor helper" },
        Excluded { stem: "nvsphelper64", display: "an NVIDIA helper", category: "a hardware vendor helper" },
        Excluded { stem: "nvidia share", display: "NVIDIA Share", category: "a hardware vendor helper" },
        Excluded { stem: "lghub", display: "Logitech G HUB", category: "a hardware vendor helper" },
        Excluded { stem: "lghub_updater", display: "the Logitech G HUB updater", category: "a hardware vendor helper" },
        Excluded { stem: "lghub_agent", display: "the Logitech G HUB agent", category: "a hardware vendor helper" },
        Excluded { stem: "icue", display: "Corsair iCUE", category: "a hardware vendor helper" },
        Excluded { stem: "razer synapse service", display: "Razer Synapse", category: "a hardware vendor helper" },
        Excluded { stem: "spotify", display: "Spotify", category: "a media application" },
        Excluded { stem: "spotifylauncher", display: "the Spotify launcher", category: "a media application" },
        Excluded { stem: "steam", display: "Steam", category: "a game platform" },
        Excluded { stem: "steamwebhelper", display: "the Steam web helper", category: "a game platform" },
        Excluded { stem: "epicgameslauncher", display: "the Epic Games Launcher", category: "a game platform" },
        Excluded { stem: "epicwebhelper", display: "the Epic Games web helper", category: "a game platform" },
        Excluded { stem: "discord", display: "Discord", category: "a communication application" },
        Excluded { stem: "slack", display: "Slack", category: "a communication application" },
        Excluded { stem: "teams", display: "Microsoft Teams", category: "a communication application" },
        Excluded { stem: "ms-teams", display: "Microsoft Teams", category: "a communication application" },
        Excluded { stem: "zoom", display: "Zoom", category: "a communication application" },
        Excluded { stem: "whatsapp", display: "WhatsApp", category: "a communication application" },
        Excluded { stem: "whatsapp.root", display: "WhatsApp", category: "a communication application" },
        Excluded { stem: "telegram", display: "Telegram", category: "a communication application" },
        Excluded { stem: "chatgpt", display: "the ChatGPT desktop application", category: "a consumer desktop application" },
        Excluded { stem: "obs64", display: "OBS Studio", category: "a media application" },
    ]
}

pub fn dedicated_programs() -> (v: Vec<Program>)
    ensures
        v@ == spec_dedicated(),
{
    vec![
        Program { stem: "mongod", display: "MongoDB", evidence: Evidence::Dedicated, category: "a database server" },
        Program { stem: "mysqld", display: "MySQL", evidence: Evidence::Dedicated, category: "a database server" },
        Program { stem: "mariadbd", display: "MariaDB", evidence: Evidence::Dedicated, category: "a database server" },
        Program { stem: "postgres", display: "PostgreSQL", evidence: Evidence::Dedicated, category: "a database server" },
        Program { stem: "pg_ctl", display: "PostgreSQL", evidence: Evidence::Dedicated, category: "a database server" },
        Program { stem: "redis-server", display: "Redis", evidence: Evidence::Dedicated, category: "a database server" },
        Program { stem: "memcached", display: "Memcached", evidence: Evidence::Dedicated, category: "a database server" },
        Program { stem: "influxd", display: "InfluxDB", evidence: Evidence::Dedicated, category: "a database server" },
        Program { stem: "clickhouse-server", display: "ClickHouse", evidence: Evidence::Dedicated, category: "a database server" },
        Program { stem: "cockroach", display: "CockroachDB", evidence: Evidence::Dedicated, category: "a database server" },
        Program { stem: "etcd", display: "etcd", evidence: Evidence::Dedicated, category: "a database server" },
        Program { stem: "surreal", display: "SurrealDB", evidence: Evidence::Dedicated, category: "a database server" },
        Program { stem: "neo4j", display: "Neo4j", evidence: Evidence::Dedicated, category: "a database server" },
        Program { stem: "couchdb", display: "CouchDB", evidence: Evidence::Dedicated, category: "a database server" },
        Program { stem: "cassandra", display: "Cassandra", evidence: Evidence::Dedicated, category: "a database server" },
        Program { stem: "meilisearch", display: "Meilisearch", evidence: Evidence::Dedicated, category: "a search engine" },
        Program { stem: "typesense-server", display: "Typesense", evidence: Evidence::Dedicated, category: "a search engine" },
        Program { stem: "qdrant", display: "Qdrant", evidence: Evidence::Dedicated, category: "a search engine" },
        Program { stem: "weaviate", display: "Weaviate", evidence: Evidence::Dedicated, category: "a search engine" },
        Program { stem: "opensearch", display: "OpenSearch", evidence: Evidence::Dedicated, category: "a search engine" },
        Program { stem: "nats-server", display: "NATS", evidence: Evidence::Dedicated, category: "a message broker" },
        Program { stem: "rabbitmq-server", display: "RabbitMQ", evidence: Evidence::Dedicated, category: "a message broker" },
        Program { stem: "mosquitto", display: "Mosquitto", evidence: Evidence::Dedicated, category: "a message broker" },
        Program { stem: "minio", display: "MinIO", evidence: Evidence::Dedicated, category: "an object storage server" },
        Program { stem: "dockerd", display: "Docker", evidence: Evidence::Dedicated, category: "a container runtime" },
        Program { stem: "docker", display: "Docker", evidence: Evidence::Dedicated, category: "a container runtime" },
        Program { stem: "com.docker.backend", display: "Docker Desktop", evidence: Evidence::Dedicated, category: "a container runtime" },
        Program { stem: "containerd", display: "containerd", evidence: Evidence::Dedicated, category: "a container runtime" },
        Program { stem: "podman", display: "Podman", evidence: Evidence::Dedicated, category: "a container runtime" },
        Program { stem: "minikube", display: "minikube", evidence: Evidence::Dedicated, category: "a container runtime" },
        Program { stem: "k3s", display: "k3s", evidence: Evidence::Dedicated, category: "a container runtime" },
        Program { stem: "nginx", display: "nginx", evidence: Evidence::Dedicated, category: "a web server" },
        Program { stem: "httpd", display: "Apache httpd", evidence: Evidence::Dedicated, category: "a web server" },
        Program { stem: "caddy", display: "Caddy", evidence: Evidence::Dedicated, category: "a web server" },
        Program { stem: "traefik", display: "Traefik", evidence: Evidence::Dedicated, category: "a web server" },
        Program { stem: "ngrok", display: "ngrok", evidence: Evidence::Dedicated, category: "a local tunnel" },
        Program { stem: "cloudflared", display: "Cloudflare Tunnel", evidence: Evidence::Dedicated, category: "a local tunnel" },
        Program { stem: "supabase", display: "Supabase", evidence: Evidence::Dedicated, category: "a backend development platform" },
        Program { stem: "localstack", display: "LocalStack", evidence: Evidence::Dedicated, category: "a local cloud emulator" },
        Program { stem: "azurite", display: "Azurite", evidence: Evidence::Dedicated, category: "a local cloud emulator" },
        Program { stem: "adb", display: "Android Debug Bridge", evidence: Evidence::Dedicated, category: "part of a mobile toolchain" },
        Program { stem: "emulator", display: "Android Emulator", evidence: Evidence::Dedicated, category: "part of a mobile toolchain" },
        Program { stem: "hugo", display: "Hugo", evidence: Evidence::Dedicated, category: "a static site generator" },
        Program { stem: "trunk", display: "Trunk", evidence: Evidence::Dedicated, category: "a build tool" },
        Program { stem: "gradle", display: "Gradle", evidence: Evidence::Dedicated, category: "a build tool" },
        Program { stem: "mailhog", display: "MailHog", evidence: Evidence::Dedicated, category: "a development mail server" },
        Program { stem: "ollama", display: "Ollama", evidence: Evidence::Dedicated, category: "a local model server" },
    ]
}

pub fn runtime_programs() -> (v: Vec<Program>)
    ensures
        v@ == spec_runtimes(),
{
    vec![
        Program { stem: "node", display: "Node.js", evidence: Evidence::Runtime, category: "a general-purpose language runtime" },
        Program { stem: "deno", display: "Deno", evidence: Evidence::Runtime, category: "a general-purpose language runtime" },
        Program { stem: "bun", display: "Bun", evidence: Evidence::Runtime, category: "a general-purpose language runtime" },
        Program { stem: "python", display: "Python", evidence: Evidence::Runtime, category: "a general-purpose language runtime" },
        Program { stem: "python3", display: "Python", evidence: Evidence::Runtime, category: "a general-purpose language runtime" },
        Program { stem: "pythonw", display: "Python", evidence: Evidence::Runtime, category: "a general-purpose language runtime" },
        Program { stem: "py", display: "Python", evidence: Evidence::Runtime, category: "a general-purpose language runtime" },
        Program { stem: "ruby", display: "Ruby", evidence: Evidence::Runtime, category: "a general-purpose language runtime" },
        Program { stem: "php", display: "PHP", evidence: Evidence::Runtime, category: "a general-purpose language runtime" },
        Program { stem: "perl", display: "Perl", evidence: Evidence::Runtime, category: "a general-purpose language runtime" },
        Program { stem: "java", display: "Java", evidence: Evidence::Runtime, category: "a general-purpose language runtime" },
        Program { stem: "javaw", display: "Java", evidence: Evidence::Runtime, category: "a general-purpose language runtime" },
        Program { stem: "dotnet", display: ".NET", evidence: Evidence::Runtime, category: "a general-purpose language runtime" },
        Program { stem: "dart", display: "Dart", evidence: Evidence::Runtime, category: "a general-purpose language runtime" },
        Program { stem: "elixir", display: "Elixir", evidence: Evidence::Runtime, category: "a general-purpose language runtime" },
        Program { stem: "erl", display: "Erlang", evidence: Evidence::Runtime, category: "a general-purpose language runtime" },
    ]
}

pub fn signatures() -> (v: Vec<Signature>)
    ensures
        v@ == spec_signatures(),
{
    vec![
        Signature { token: "vite", display: "Vite", kind: SignatureKind::Tool },
        Signature { token: "next", display: "Next.js", kind: SignatureKind::Tool },
        Signature { token: "nuxt", display: "Nuxt", kind: SignatureKind::Tool },
        Signature { token: "astro", display: "Astro", kind: SignatureKind::Tool },
        Signature { token: "remix", display: "Remix", kind: SignatureKind::Tool },
        Signature { token: "webpack", display: "webpack", kind: SignatureKind::Tool },
        Signature { token: "webpack-dev-server", display: "webpack-dev-server", kind: SignatureKind::Tool },
        Signature { token: "rollup", display: "Rollup", kind: SignatureKind::Tool },
        Signature { token: "parcel", display: "Parcel", kind: SignatureKind::Tool },
        Signature { token: "esbuild", display: "esbuild", kind: SignatureKind::Tool },
        Signature { token: "nodemon", display: "nodemon", kind: SignatureKind::Tool },
        Signature { token: "ts-node", display: "ts-node", kind: SignatureKind::Tool },
        Signature { token: "tsx", display: "tsx", kind: SignatureKind::Tool },
        Signature { token: "tsc", display: "TypeScript compiler", kind: SignatureKind::Tool },
        Signature { token: "nest", display: "NestJS", kind: SignatureKind::Tool },
        Signature { token: "ng", display: "Angular CLI", kind: SignatureKind::Tool },
        Signature { token: "react-scripts", display: "react-scripts", kind: SignatureKind::Tool },
        Signature { token: "vue-cli-service", display: "Vue CLI", kind: SignatureKind::Tool },
        Signature { token: "sveltekit", display: "SvelteKit", kind: SignatureKind::Tool },
        Signature { token: "gatsby", display: "Gatsby", kind: SignatureKind::Tool },
        Signature { token: "eleventy", display: "Eleventy", kind: SignatureKind::Tool },
        Signature { token: "storybook", display: "Storybook", kind: SignatureKind::Tool },
        Signature { token: "vitest", display: "Vitest", kind: SignatureKind::Tool },
        Signature { token: "jest", display: "Jest", kind: SignatureKind::Tool },
        Signature { token: "playwright", display: "Playwright", kind: SignatureKind::Tool },
        Signature { token: "cypress", display: "Cypress", kind: SignatureKind::Tool },
        Signature { token: "expo", display: "Expo", kind: SignatureKind::Tool },
        Signature { token: "metro", display: "Metro", kind: SignatureKind::Tool },
        Signature { token: "wrangler", display: "Wrangler", kind: SignatureKind::Tool },
        Signature { token: "http-server", display: "http-server", kind: SignatureKind::Tool },
        Signature { token: "live-server", display: "live-server", kind: SignatureKind::Tool },
        Signature { token: "browser-sync", display: "BrowserSync", kind: SignatureKind::Tool },
        Signature { token: "json-server", display: "json-server", kind: SignatureKind::Tool },
        Signature { token: "strapi", display: "Strapi", kind: SignatureKind::Tool },
        Signature { token: "directus", display: "Directus", kind: SignatureKind::Tool },
        Signature { token: "payload", display: "Payload", kind: SignatureKind::Tool },
        Signature { token: "medusa", display: "Medusa", kind: SignatureKind::Tool },
        Signature { token: "sanity", display: "Sanity", kind: SignatureKind::Tool },
        Signature { token: "firebase", display: "Firebase CLI", kind: SignatureKind::Tool },
        Signature { token: "netlify", display: "Netlify CLI", kind: SignatureKind::Tool },
        Signature { token: "vercel", display: "Vercel CLI", kind: SignatureKind::Tool },
        Signature { token: "amplify", display: "Amplify CLI", kind: SignatureKind::Tool },
        Signature { token: "hardhat", display: "Hardhat", kind: SignatureKind::Tool },
        Signature { token: "truffle", display: "Truffle", kind: SignatureKind::Tool },
        Signature { token: "anvil", display: "Anvil", kind: SignatureKind::Tool },
        Signature { token: "pm2", display: "PM2", kind: SignatureKind::Tool },
        Signature { token: "nx", display: "Nx", kind: SignatureKind::Tool },
        Signature { token: "turbo", display: "Turborepo", kind: SignatureKind::Tool },
        Signature { token: "lerna", display: "Lerna", kind: SignatureKind::Tool },
        Signature { token: "npm", display: "npm", kind: SignatureKind::Tool },
        Signature { token: "pnpm", display: "pnpm", kind: SignatureKind::Tool },
        Signature { token: "yarn", display: "Yarn", kind: SignatureKind::Tool },
        Signature { token: "npx", display: "npx", kind: SignatureKind::Tool },
        Signature { token: "concurrently", display: "concurrently", kind: SignatureKind::Tool },
        Signature { token: "django", display: "Django", kind: SignatureKind::Tool },
        Signature { token: "manage", display: "Django manage.py", kind: SignatureKind::Tool },
        Signature { token: "flask", display: "Flask", kind: SignatureKind::Tool },
        Signature { token: "fastapi", display: "FastAPI", kind: SignatureKind::Tool },
        Signature { token: "uvicorn", display: "Uvicorn", kind: SignatureKind::Tool },
        Signature { token: "gunicorn", display: "Gunicorn", kind: SignatureKind::Tool },
        Signature { token: "hypercorn", display: "Hypercorn", kind: SignatureKind::Tool },
        Signature { token: "waitress-serve", display: "Waitress", kind: SignatureKind::Tool },
        Signature { token: "daphne", display: "Daphne", kind: SignatureKind::Tool },
        Signature { token: "celery", display: "Celery", kind: SignatureKind::Tool },
        Signature { token: "streamlit", display: "Streamlit", kind: SignatureKind::Tool },
        Signature { token: "gradio", display: "Gradio", kind: SignatureKind::Tool },
        Signature { token: "jupyter", display: "Jupyter", kind: SignatureKind::Tool },
        Signature { token: "jupyterlab", display: "JupyterLab", kind: SignatureKind::Tool },
        Signature { token: "notebook", display: "Jupyter Notebook", kind: SignatureKind::Tool },
        Signature { token: "mkdocs", display: "MkDocs", kind: SignatureKind::Tool },
        Signature { token: "pytest", display: "pytest", kind: SignatureKind::Tool },
        Signature { token: "mlflow", display: "MLflow", kind: SignatureKind::Tool },
        Signature { token: "tensorboard", display: "TensorBoard", kind: SignatureKind::Tool },
        Signature { token: "airflow", display: "Airflow", kind: SignatureKind::Tool },
        Signature { token: "dagster", display: "Dagster", kind: SignatureKind::Tool },
        Signature { token: "prefect", display: "Prefect", kind: SignatureKind::Tool },
        Signature { token: "scrapy", display: "Scrapy", kind: SignatureKind::Tool },
        Signature { token: "locust", display: "Locust", kind: SignatureKind::Tool },
        Signature { token: "rails", display: "Rails", kind: SignatureKind::Tool },
        Signature { token: "puma", display: "Puma", kind: SignatureKind::Tool },
        Signature { token: "unicorn", display: "Unicorn", kind: SignatureKind::Tool },
        Signature { token: "sidekiq", display: "Sidekiq", kind: SignatureKind::Tool },
        Signature { token: "jekyll", display: "Jekyll", kind: SignatureKind::Tool },
        Signature { token: "rackup", display: "Rack", kind: SignatureKind::Tool },
        Signature { token: "artisan", display: "Laravel Artisan", kind: SignatureKind::Tool },
        Signature { token: "symfony", display: "Symfony", kind: SignatureKind::Tool },
        Signature { token: "composer", display: "Composer", kind: SignatureKind::Tool },
        Signature { token: "spring", display: "Spring", kind: SignatureKind::Tool },
        Signature { token: "springboot", display: "Spring Boot", kind: SignatureKind::Tool },
        Signature { token: "quarkus", display: "Quarkus", kind: SignatureKind::Tool },
        Signature { token: "micronaut", display: "Micronaut", kind: SignatureKind::Tool },
        Signature { token: "tomcat", display: "Tomcat", kind: SignatureKind::Tool },
        Signature { token: "jetty", display: "Jetty", kind: SignatureKind::Tool },
        Signature { token: "gradlew", display: "Gradle wrapper", kind: SignatureKind::Tool },
        Signature { token: "gradle", display: "Gradle", kind: SignatureKind::Tool },
        Signature { token: "maven", display: "Maven", kind: SignatureKind::Tool },
        Signature { token: "mvn", display: "Maven", kind: SignatureKind::Tool },
        Signature { token: "aspnetcore", display: "ASP.NET Core", kind: SignatureKind::Tool },
        Signature { token: "dev", display: "dev", kind: SignatureKind::Verb },
        Signature { token: "serve", display: "serve", kind: SignatureKind::Verb },
        Signature { token: "server", display: "server", kind: SignatureKind::Verb },
        Signature { token: "watch", display: "watch", kind: SignatureKind::Verb },
        Signature { token: "start", display: "start", kind: SignatureKind::Verb },
        Signature { token: "run", display: "run", kind: SignatureKind::Verb },
        Signature { token: "runserver", display: "runserver", kind: SignatureKind::Verb },
        Signature { token: "develop", display: "develop", kind: SignatureKind::Verb },
        Signature { token: "node_modules", display: "a node_modules project directory", kind: SignatureKind::Workspace },
        Signature { token: ".venv", display: "a Python virtual environment", kind: SignatureKind::Workspace },
        Signature { token: "venv", display: "a Python virtual environment", kind: SignatureKind::Workspace },
        Signature { token: "site-packages", display: "a Python site-packages directory", kind: SignatureKind::Workspace },
    ]
}

pub fn excluded_programs() -> (v: Vec<Excluded>)
    ensures
        v@ == spec_excluded(),
{
    vec![
        Excluded { stem: "system", display: "the Windows kernel", category: "part of the operating system" },
        Excluded { stem: "smss", display: "Session Manager", category: "part of the operating system" },
        Excluded { stem: "csrss", display: "Client/Server Runtime", category: "part of the operating system" },
        Excluded { stem: "wininit", display: "Windows Start-Up", category: "part of the operating system" },
        Excluded { stem: "winlogon", display: "Windows Logon", category: "part of the operating system" },
        Excluded { stem: "services", display: "Service Control Manager", category: "part of the operating system" },
        Excluded { stem: "lsass", display: "Local Security Authority", category: "part of the operating system" },
        Excluded { stem: "svchost", display: "a Windows service host", category: "part of the operating system" },
        Excluded { stem: "spoolsv", display: "the Print Spooler", category: "part of the operating system" },
        Excluded { stem: "dwm", display: "the Desktop Window Manager", category: "part of the operating system" },
        Excluded { stem: "explorer", display: "Windows Explorer", category: "part of the operating system" },
        Excluded { stem: "searchindexer", display: "Windows Search", category: "part of the operating system" },
        Excluded { stem: "searchhost", display: "Windows Search", category: "part of the operating system" },
        Excluded { stem: "runtimebroker", display: "Runtime Broker", category: "part of the operating system" },
        Excluded { stem: "dllhost", display: "COM Surrogate", category: "part of the operating system" },
        Excluded { stem: "wmiprvse", display: "WMI Provider Host", category: "part of the operating system" },
        Excluded { stem: "taskhostw", display: "Task Host", category: "part of the operating system" },
        Excluded { stem: "sihost", display: "Shell Infrastructure Host", category: "part of the operating system" },
        Excluded { stem: "msmpeng", display: "Microsoft Defender", category: "security software" },
        Excluded { stem: "mssense", display: "Microsoft Defender for Endpoint", category: "security software" },
        Excluded { stem: "nissrv", display: "Microsoft Defender Network Inspection", category: "security software" },
        Excluded { stem: "trustedinstaller", display: "Windows Modules Installer", category: "part of the operating system" },
        Excluded { stem: "tiworker", display: "Windows Modules Installer Worker", category: "part of the operating system" },
        Excluded { stem: "usocoreworker", display: "Update Session Orchestrator", category: "part of the operating system" },
        Excluded { stem: "mousocoreworker", display: "Update Session Orchestrator", category: "part of the operating system" },
        Excluded { stem: "chrome", display: "Google Chrome", category: "a web browser" },
        Excluded { stem: "msedge", display: "Microsoft Edge", category: "a web browser" },
        Excluded { stem: "msedgewebview2", display: "the Edge WebView2 runtime", category: "a web browser" },
        Excluded { stem: "brave", display: "Brave", category: "a web browser" },
        Excluded { stem: "firefox", display: "Firefox", category: "a web browser" },
        Excluded { stem: "opera", display: "Opera", category: "a web browser" },
        Excluded { stem: "vivaldi", display: "Vivaldi", category: "a web browser" },
        Excluded { stem: "chromium", display: "Chromium", category: "a web browser" },
        Excluded { stem: "icloud", display: "iCloud", category: "a cloud sync client" },
        Excluded { stem: "iclouddrive", display: "iCloud Drive", category: "a cloud sync client" },
        Excluded { stem: "icloudphotos", display: "iCloud Photos", category: "a cloud sync client" },
        Excluded { stem: "icloudhome", display: "iCloud", category: "a cloud sync client" },
        Excluded { stem: "icloudckks", display: "iCloud sync", category: "a cloud sync client" },
        Excluded { stem: "icloudservices", display: "iCloud", category: "a cloud sync client" },
        Excluded { stem: "apsdaemon", display: "the Apple Push notification service", category: "a cloud sync client" },
        Excluded { stem: "applemobiledevicelauncher", display: "Apple Mobile Device Support", category: "device support software" },
        Excluded { stem: "applemobiledeviceprocess", display: "Apple Mobile Device Support", category: "device support software" },
        Excluded { stem: "applemobiledeviceservice", display: "Apple Mobile Device Support", category: "device support software" },
        Excluded { stem: "itunes", display: "iTunes", category: "a media application" },
        Excluded { stem: "mdnsresponder", display: "Bonjour", category: "device support software" },
        Excluded { stem: "onedrive", display: "OneDrive", category: "a cloud sync client" },
        Excluded { stem: "dropbox", display: "Dropbox", category: "a cloud sync client" },
        Excluded { stem: "googledrivefs", display: "Google Drive", category: "a cloud sync client" },
        Excluded { stem: "nvcontainer", display: "the NVIDIA container service", category: "a hardware vendor helper" },
        Excluded { stem: "nvidia web helper", display: "the NVIDIA web helper", category: "a hardware vendor helper" },
        Excluded { stem: "nvdisplay.container", display: "the NVIDIA display container", category: "a hardware vendor helper" },
        Excluded { stem: "nvsphelper64", display: "an NVIDIA helper", category: "a hardware vendor helper" },
        Excluded { stem: "nvidia share", display: "NVIDIA Share", category: "a hardware vendor helper" },
        Excluded { stem: "lghub", display: "Logitech G HUB", category: "a hardware vendor helper" },
        Excluded { stem: "lghub_updater", display: "the Logitech G HUB updater", category: "a hardware vendor helper" },
        Excluded { stem: "lghub_agent", display: "the Logitech G HUB agent", category: "a hardware vendor helper" },
        Excluded { stem: "icue", display: "Corsair iCUE", category: "a hardware vendor helper" },
        Excluded { stem: "razer synapse service", display: "Razer Synapse", category: "a hardware vendor helper" },
        Excluded { stem: "spotify", display: "Spotify", category: "a media application" },
        Excluded { stem: "spotifylauncher", display: "the Spotify launcher", category: "a media application" },
        Excluded { stem: "steam", display: "Steam", category: "a game platform" },
        Excluded { stem: "steamwebhelper", display: "the Steam web helper", category: "a game platform" },
        Excluded { stem: "epicgameslauncher", display: "the Epic Games Launcher", category: "a game platform" },
        Excluded { stem: "epicwebhelper", display: "the Epic Games web helper", category: "a game platform" },
        Excluded { stem: "discord", display: "Discord", category: "a communication application" },
        Excluded { stem: "slack", display: "Slack", category: "a communication application" },
        Excluded { stem: "teams", display: "Microsoft Teams", category: "a communication application" },
        Excluded { stem: "ms-teams", display: "Microsoft Teams", category: "a communication application" },
        Excluded { stem: "zoom", display: "Zoom", category: "a communication application" },
        Excluded { stem: "whatsapp", display: "WhatsApp", category: "a communication application" },
        Excluded { stem: "whatsapp.root", display: "WhatsApp", category: "a communication application" },
        Excluded { stem: "telegram", display: "Telegram", category: "a communication application" },
        Excluded { stem: "chatgpt", display: "the ChatGPT desktop application", category: "a consumer desktop application" },
        Excluded { stem: "obs64", display: "OBS Studio", category: "a media application" },
    ]
}

// -------------------------------------------------------------------- lookups

/// The first entry of `table` whose key equals `target`, ignoring ASCII case.
pub open spec fn find_by_key<T>(table: Seq<T>, key: spec_fn(T) -> Seq<char>, target: Seq<char>) -> Option<T>
    decreases table.len(),
{
    if table.len() == 0 {
        None
    } else if lower_seq(key(table[0])) == lower_seq(target) {
        Some(table[0])
    } else {
        find_by_key(table.drop_first(), key, target)
    }
}

/// Skipping entries that do not match does not change the first match.
pub proof fn lemma_find_skip<T>(table: Seq<T>, key: spec_fn(T) -> Seq<char>, target: Seq<char>, i: int)
    requires
        0 <= i <= table.len(),
        forall|j: int| 0 <= j < i ==> lower_seq(key(#[trigger] table[j])) != lower_seq(target),
    ensures
        find_by_key(table, key, target) == find_by_key(table.skip(i), key, target),
    decreases i,
{
    if i > 0 {
        assert(lower_seq(key(table[0])) != lower_seq(target));
        assert(table.drop_first().skip(i - 1) =~= table.skip(i));
        assert forall|j: int| 0 <= j < i - 1 implies lower_seq(key(#[trigger] table.drop_first()[j]))
            != lower_seq(target) by {
            assert(table.drop_first()[j] == table[j + 1]);
        }
        lemma_find_skip(table.drop_first(), key, target, i - 1);
    } else {
        assert(table.skip(0) =~= table);
    }
}

pub open spec fn program_key() -> spec_fn(Program) -> Seq<char> {
    |p: Program| p.stem@
}

pub open spec fn excluded_key() -> spec_fn(Excluded) -> Seq<char> {
    |e: Excluded| e.stem@
}

pub open spec fn signature_key() -> spec_fn(Signature) -> Seq<char> {
    |s: Signature| s.token@
}

/// Every registered developer executable: the dedicated programs, then the
/// runtimes.
pub open spec fn spec_programs() -> Seq<Program> {
    spec_dedicated() + spec_runtimes()
}

/// A trailing run of digits and dots removed: `python3.12` becomes `python`.
pub open spec fn trim_version(s: Seq<char>) -> Seq<char>
    decreases s.len(),
{
    if s.len() > 0 && (is_ascii_digit(s.last()) || s.last() == '.') {
        trim_version(s.drop_last())
    } else {
        s
    }
}

/// The version-suffix retry: only when something was trimmed and a letter is
/// left over.
pub open spec fn spec_unversioned(stem: Seq<char>) -> Option<Seq<char>> {
    let t = trim_version(stem);
    if t.len() == stem.len() || !(exists|i: int| 0 <= i < t.len() && is_ascii_alphabetic(#[trigger] t[i])) {
        None
    } else {
        Some(t)
    }
}

/// Exact match first, then the version-suffix retry.
pub open spec fn spec_program(stem: Seq<char>) -> Option<Program> {
    match find_by_key(spec_programs(), program_key(), stem) {
        Some(p) => Some(p),
        None => match spec_unversioned(stem) {
            Some(u) => find_by_key(spec_programs(), program_key(), u),
            None => None,
        },
    }
}

pub open spec fn spec_excluded_entry(stem: Seq<char>) -> Option<Excluded> {
    match find_by_key(spec_excluded(), excluded_key(), stem) {
        Some(e) => Some(e),
        None => match spec_unversioned(stem) {
            Some(u) => find_by_key(spec_excluded(), excluded_key(), u),
            None => None,
        },
    }
}

pub open spec fn spec_signature(token: Seq<char>) -> Option<Signature> {
    find_by_key(spec_signatures(), signature_key(), token)
}

fn find_program(table: &Vec<Program>, target: &[char]) -> (r: Option<Program>)
    ensures
        r == find_by_key(table@, program_key(), target@),
{
    let mut i: usize = 0;
    while i < table.len()
        invariant
            i <= table@.len(),
            forall|j: int| 0 <= j < i ==> lower_seq(program_key()(#[trigger] table@[j])) != lower_seq(target@),
        decreases table@.len() - i,
    {
        let key = chars_of(table[i].stem);
        if eq_ignore_case(key.as_slice(), target) {
            proof {
                lemma_find_skip(table@, program_key(), target@, i as int);
            }
            return Some(table[i]);
        }
        i = i + 1;
    }
    proof {
        lemma_find_skip(table@, program_key(), target@, i as int);
    }
    None
}

fn find_excluded(table: &Vec<Excluded>, target: &[char]) -> (r: Option<Excluded>)
    ensures
        r == find_by_key(table@, excluded_key(), target@),
{
    let mut i: usize = 0;
    while i < table.len()
        invariant
            i <= table@.len(),
            forall|j: int| 0 <= j < i ==> lower_seq(excluded_key()(#[trigger] table@[j])) != lower_seq(target@),
        decreases table@.len() - i,
    {
        let key = chars_of(table[i].stem);
        if eq_ignore_case(key.as_slice(), target) {
            proof {
                lemma_find_skip(table@, excluded_key(), target@, i as int);
            }
            return Some(table[i]);
        }
        i = i + 1;
    }
    proof {
        lemma_find_skip(table@, excluded_key(), target@, i as int);
    }
    None
}

fn find_signature(table: &Vec<Signature>, target: &[char]) -> (r: Option<Signature>)
    ensures
        r == find_by_key(table@, signature_key(), target@),
{
    let mut i: usize = 0;
    while i < table.len()
        invariant
            i <= table@.len(),
            forall|j: int| 0 <= j < i ==> lower_seq(signature_key()(#[trigger] table@[j])) != lower_seq(target@),
        decreases table@.len() - i,
    {
        let key = chars_of(table[i].token);
        if eq_ignore_case(key.as_slice(), target) {
            proof {
                lemma_find_skip(table@, signature_key(), target@, i as int);
            }
            return Some(table[i]);
        }
        i = i + 1;
    }
    proof {
        lemma_find_skip(table@, signature_key(), target@, i as int);
    }
    None
}

/// A stem with a trailing version dropped (`python3.12` to `python`), or
/// `None` when there is no version to drop or nothing but the version.
pub fn unversioned_chars(stem: &[char]) -> (r: Option<Vec<char>>)
    ensures
        match (r, spec_unversioned(stem@)) {
            (Some(v), Some(u)) => v@ == u,
            (None, None) => true,
            _ => false,
        },
{
    let mut end: usize = stem.len();
    proof {
        assert(stem@.take(end as int) =~= stem@);
    }
    while end > 0 && (('0' <= stem[end - 1] && stem[end - 1] <= '9') || stem[end - 1] == '.')
        invariant
            end <= stem@.len(),
            trim_version(stem@) == trim_version(stem@.take(end as int)),
        decreases end,
    {
        proof {
            assert(stem@.take(end as int).drop_last() =~= stem@.take(end - 1));
            assert(stem@.take(end as int).last() == stem@[end - 1]);
        }
        end = end - 1;
    }
    let ghost t = stem@.take(end as int);
    proof {
        if t.len() > 0 {
            assert(t.last() == stem@[end - 1]);
        }
        assert(trim_version(t) == t);
    }
    if end == stem.len() {
        return None;
    }
    let mut has_letter = false;
    let mut i: usize = 0;
    while i < end
        invariant
            end <= stem@.len(),
            t == stem@.take(end as int),
            i <= end,
            has_letter == (exists|j: int| 0 <= j < i && is_ascii_alphabetic(#[trigger] t[j])),
        decreases end - i,
    {
        let c = stem[i];
        if ('A' <= c && c <= 'Z') || ('a' <= c && c <= 'z') {
            proof {
                assert(is_ascii_alphabetic(t[i as int]));
            }
            has_letter = true;
        } else {
            proof {
                assert forall|j: int| 0 <= j < i + 1 && is_ascii_alphabetic(#[trigger] t[j]) implies j < i by {
                    if j == i {
                        assert(t[j] == c);
                    }
                }
            }
        }
        i = i + 1;
    }
    if !has_letter {
        return None;
    }
    let mut out: Vec<char> = Vec::new();
    let mut k: usize = 0;
    while k < end
        invariant
            end <= stem@.len(),
            k <= end,
            out@ == stem@.take(k as int),
        decreases end - k,
    {
        out.push(stem[k]);
        proof {
            assert(stem@.take(k as int).push(stem@[k as int]) =~= stem@.take(k + 1));
        }
        k = k + 1;
    }
    Some(out)
}

/// Find a registered developer program by executable stem: an exact,
/// case-insensitive match, then the version-suffix retry. Never a prefix and
/// never a substring.
pub fn program_for(stem: &[char]) -> (r: Option<Program>)
    ensures
        r == spec_program(stem@),
{
    let mut table = dedicated_programs();
    let mut runtimes = runtime_programs();
    table.append(&mut runtimes);
    proof {
        assert(table@ =~= spec_programs());
    }
    match find_program(&table, stem) {
        Some(p) => Some(p),
        None => match unversioned_chars(stem) {
            Some(u) => find_program(&table, u.as_slice()),
            None => None,
        },
    }
}

/// Find an exclusion by executable stem, with the same retry.
pub fn excluded_for(stem: &[char]) -> (r: Option<Excluded>)
    ensures
        r == spec_excluded_entry(stem@),
{
    let table = excluded_programs();
    match find_excluded(&table, stem) {
        Some(e) => Some(e),
        None => match unversioned_chars(stem) {
            Some(u) => find_excluded(&table, u.as_slice()),
            None => None,
        },
    }
}

/// Find the signature a command-line token matches.
pub fn signature_for(token: &[char]) -> (r: Option<Signature>)
    ensures
        r == spec_signature(token@),
{
    let table = signatures();
    find_signature(&table, token)
}


/// A stem with a trailing version dropped (`python3.12` to `python`), or
/// `None` when there is no version to drop or nothing but the version.
pub fn unversioned(stem: &str) -> (r: Option<String>)
    ensures
        match (r, spec_unversioned(stem@)) {
            (Some(v), Some(u)) => v@ == u,
            (None, None) => true,
            _ => false,
        },
{
    match unversioned_chars(crate::text::chars_of(stem).as_slice()) {
        Some(u) => Some(crate::text::string_of(u.as_slice())),
        None => None,
    }
}

/// Find a registered developer program by executable stem.
pub fn program(stem: &str) -> (r: Option<Program>)
    ensures
        r == spec_program(stem@),
{
    program_for(crate::text::chars_of(stem).as_slice())
}

/// Find an exclusion by executable stem.
pub fn excluded(stem: &str) -> (r: Option<Excluded>)
    ensures
        r == spec_excluded_entry(stem@),
{
    excluded_for(crate::text::chars_of(stem).as_slice())
}

/// Find the signature a command-line token matches.
pub fn signature(token: &str) -> (r: Option<Signature>)
    ensures
        r == spec_signature(token@),
{
    signature_for(crate::text::chars_of(token).as_slice())
}

proof fn lemma_found_matches<T>(table: Seq<T>, key: spec_fn(T) -> Seq<char>, target: Seq<char>)
    ensures
        find_by_key(table, key, target) matches Some(x) ==> lower_seq(key(x)) == lower_seq(target)
            && table.contains(x),
    decreases table.len(),
{
    if table.len() > 0 && lower_seq(key(table[0])) != lower_seq(target) {
        lemma_found_matches(table.drop_first(), key, target);
        if let Some(x) = find_by_key(table.drop_first(), key, target) {
            let j = choose|j: int| 0 <= j < table.drop_first().len() && table.drop_first()[j] == x;
            assert(table[j + 1] == x);
        }
    } else if table.len() > 0 {
        assert(table[0] == table[0]);
    }
}

/// A lookup only ever answers with a table entry whose stem is the one
/// asked for, ignoring ASCII case, or else that stem with its version
/// trimmed; an exact match is preferred.
pub proof fn law_lookups_answer_with_matching_entries(stem: Seq<char>)
    ensures
        spec_excluded_entry(stem) matches Some(e) ==> spec_excluded().contains(e) && (lower_seq(e.stem@)
            == lower_seq(stem) || (spec_unversioned(stem) matches Some(u) && lower_seq(e.stem@) == lower_seq(
            u,
        ))),
        spec_program(stem) matches Some(p) ==> spec_programs().contains(p) && (lower_seq(p.stem@)
            == lower_seq(stem) || (spec_unversioned(stem) matches Some(u) && lower_seq(p.stem@) == lower_seq(
            u,
        ))),
        find_by_key(spec_excluded(), excluded_key(), stem) is Some ==> spec_excluded_entry(stem) == find_by_key(
            spec_excluded(),
            excluded_key(),
            stem,
        ),
        find_by_key(spec_programs(), program_key(), stem) is Some ==> spec_program(stem) == find_by_key(
            spec_programs(),
            program_key(),
            stem,
        ),
{
    lemma_found_matches(spec_excluded(), excluded_key(), stem);
    lemma_found_matches(spec_programs(), program_key(), stem);
    if let Some(u) = spec_unversioned(stem) {
        lemma_found_matches(spec_excluded(), excluded_key(), u);
        lemma_found_matches(spec_programs(), program_key(), u);
    }
}

} // verus!
